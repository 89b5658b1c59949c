//! The builtin commands: parsing their argument lists and computing
//! the text they print.

use vstd::prelude::*;

use crate::command::ParseCommandError;
use crate::numbers::{int_literal_val, is_int_literal, parse_i32};
use crate::strutil::{clone_strings, concat_str, str_eq};
use crate::tokenize::{join_words, token_views};

pub mod history;
pub mod type_;

use type_::Type;

verus! {

/// A builtin's exit code: `0` on success, negative on failure.
pub type ExitCode = i32;

/// The fixed set of builtin command names.
pub open spec fn is_builtin_name(s: Seq<char>) -> bool {
    ||| s == "echo"@
    ||| s == "type"@
    ||| s == "history"@
    ||| s == "pwd"@
    ||| s == "cd"@
    ||| s == "exit"@
}

/// Whether `name` is one of the builtin commands.
pub fn is_builtin(name: &str) -> (b: bool)
    ensures
        b == is_builtin_name(name@),
{
    str_eq(name, "echo") || str_eq(name, "type") || str_eq(name, "history") || str_eq(name, "pwd")
        || str_eq(name, "cd") || str_eq(name, "exit")
}

/// The six builtin names are pairwise distinct.
pub proof fn lemma_builtin_names_distinct()
    ensures
        "echo"@ != "type"@,
        "echo"@ != "history"@,
        "echo"@ != "pwd"@,
        "echo"@ != "cd"@,
        "echo"@ != "exit"@,
        "type"@ != "history"@,
        "type"@ != "pwd"@,
        "type"@ != "cd"@,
        "type"@ != "exit"@,
        "history"@ != "pwd"@,
        "history"@ != "cd"@,
        "history"@ != "exit"@,
        "pwd"@ != "cd"@,
        "pwd"@ != "exit"@,
        "cd"@ != "exit"@,
        "echo"@.len() == 4,
        "type"@.len() == 4,
        "history"@.len() == 7,
        "pwd"@.len() == 3,
        "cd"@.len() == 2,
        "exit"@.len() == 4,
{
    reveal_strlit("echo");
    reveal_strlit("type");
    reveal_strlit("history");
    reveal_strlit("pwd");
    reveal_strlit("cd");
    reveal_strlit("exit");
    assert("echo"@.len() == 4);
    assert("type"@.len() == 4);
    assert("history"@.len() == 7);
    assert("pwd"@.len() == 3);
    assert("cd"@.len() == 2);
    assert("exit"@.len() == 4);
    assert("echo"@[0] == 'e');
    assert("echo"@[1] == 'c');
    assert("type"@[0] == 't');
    assert("exit"@[0] == 'e');
    assert("exit"@[1] == 'x');
}

/// A parsed builtin command.
#[derive(Debug, PartialEq, Eq)]
pub enum BuiltinCommand {
    Echo(String),
    Type(Type),
    History(i64),
    Pwd,
    Cd(String),
    Exit(ExitCode),
}

/// What `echo` is given to print: its arguments joined with single
/// spaces, or a bare newline when there are none.
pub open spec fn echo_content(args: Seq<Seq<char>>) -> Seq<char> {
    if args.len() == 0 {
        "\n"@
    } else {
        join_words(args)
    }
}

/// What parsing a builtin command must produce, for every builtin name
/// and argument list.
pub open spec fn builtin_parse_post(
    cmd: Seq<char>,
    args: Seq<String>,
    r: Result<BuiltinCommand, ParseCommandError>,
) -> bool {
    if cmd == "echo"@ {
        match r {
            Ok(BuiltinCommand::Echo(c)) => c@ == echo_content(token_views(args)),
            _ => false,
        }
    } else if cmd == "type"@ {
        if args.len() == 0 {
            match r {
                Err(ParseCommandError::LessArgs(c, a, n)) => c@ == cmd && a@ == args && n == 1,
                _ => false,
            }
        } else {
            match r {
                Ok(BuiltinCommand::Type(t)) => t.names() == args,
                _ => false,
            }
        }
    } else if cmd == "history"@ {
        if args.len() > 1 {
            match r {
                Err(ParseCommandError::MoreArgs(c, a, n)) => c@ == cmd && a@ == args && n == 1,
                _ => false,
            }
        } else if args.len() == 0 {
            r == Ok::<BuiltinCommand, ParseCommandError>(BuiltinCommand::History(-1i64))
        } else if is_int_literal(args[0]@) && i64::MIN <= int_literal_val(args[0]@) <= i64::MAX {
            match r {
                Ok(BuiltinCommand::History(n)) => n as int == int_literal_val(args[0]@),
                _ => false,
            }
        } else {
            match r {
                Err(ParseCommandError::InvalidNumber(c, a)) => c@ == cmd && a@ == args,
                _ => false,
            }
        }
    } else if cmd == "pwd"@ {
        if args.len() > 0 {
            match r {
                Err(ParseCommandError::MoreArgs(c, a, n)) => c@ == cmd && a@ == args && n == 0,
                _ => false,
            }
        } else {
            r == Ok::<BuiltinCommand, ParseCommandError>(BuiltinCommand::Pwd)
        }
    } else if cmd == "cd"@ {
        if args.len() > 1 {
            match r {
                Err(ParseCommandError::MoreArgs(c, a, n)) => c@ == cmd && a@ == args && n == 1,
                _ => false,
            }
        } else {
            match r {
                Ok(BuiltinCommand::Cd(t)) => t@ == if args.len() == 1 {
                    args[0]@
                } else {
                    "~"@
                },
                _ => false,
            }
        }
    } else if cmd == "exit"@ {
        if args.len() > 1 {
            match r {
                Err(ParseCommandError::MoreArgs(c, a, n)) => c@ == cmd && a@ == args && n == 1,
                _ => false,
            }
        } else if args.len() == 0 {
            r == Ok::<BuiltinCommand, ParseCommandError>(BuiltinCommand::Exit(0))
        } else if is_int_literal(args[0]@) && i32::MIN <= int_literal_val(args[0]@) <= i32::MAX {
            match r {
                Ok(BuiltinCommand::Exit(n)) => n as int == int_literal_val(args[0]@),
                _ => false,
            }
        } else {
            match r {
                Err(ParseCommandError::InvalidNumber(c, a)) => c@ == cmd && a@ == args,
                _ => false,
            }
        }
    } else {
        true
    }
}

/// Joins strings with single spaces.
pub fn join_args(args: &Vec<String>) -> (r: String)
    ensures
        r@ == join_words(token_views(args@)),
{
    if args.len() == 0 {
        let r = String::new();
        proof {
            assert(token_views(args@) =~= Seq::<Seq<char>>::empty());
        }
        return r;
    }
    let mut content = args[0].clone();
    proof {
        assert(token_views(args@).take(1) =~= seq![args@[0]@]);
        assert(join_words(seq![args@[0]@]) == args@[0]@);
    }
    let mut i: usize = 1;
    while i < args.len()
        invariant
            1 <= i <= args@.len(),
            content@ == join_words(token_views(args@).take(i as int)),
        decreases args@.len() - i,
    {
        content.append(" ");
        content.append(args[i].as_str());
        proof {
            let ws = token_views(args@).take(i as int);
            crate::tokenize::lemma_join_words_push(ws, args@[i as int]@);
            assert(ws.push(args@[i as int]@) =~= token_views(args@).take(i + 1));
            assert(" "@ =~= seq![' ']) by {
                reveal_strlit(" ");
            }
        }
        i = i + 1;
    }
    proof {
        assert(token_views(args@).take(args@.len() as int) =~= token_views(args@));
    }
    content
}

/// The full text `echo` prints: the joined arguments and one final
/// newline; with no arguments, exactly one newline.
pub fn echo_output(args: &Vec<String>) -> (r: String)
    ensures
        args@.len() == 0 ==> r@ == "\n"@,
        args@.len() > 0 ==> r@ == join_words(token_views(args@)) + "\n"@,
{
    if args.len() == 0 {
        return String::from_str("\n");
    }
    let mut r = join_args(args);
    r.append("\n");
    r
}

/// What `echo` writes for an already-parsed content value: the bare
/// newline stays a single newline, anything else gets one newline
/// appended.
pub fn echo_render(content: &str) -> (r: String)
    ensures
        content@ == "\n"@ ==> r@ == "\n"@,
        content@ != "\n"@ ==> r@ == content@ + "\n"@,
{
    if str_eq(content, "\n") {
        content.to_owned()
    } else {
        concat_str(content, "\n")
    }
}

/// Where `cd` goes: `~` alone is the home directory, a leading `~/` is
/// rewritten under it, everything else is taken as given.
pub open spec fn cd_target_spec(arg: Seq<char>, home: Seq<char>) -> Seq<char> {
    if arg == "~"@ {
        home
    } else if arg.len() >= 2 && arg[0] == '~' && arg[1] == '/' {
        home + arg.skip(1)
    } else {
        arg
    }
}

/// Expands a leading `~` in the target of `cd`.
pub fn cd_target(arg: &str, home: &str) -> (r: String)
    ensures
        r@ == cd_target_spec(arg@, home@),
{
    if str_eq(arg, "~") {
        return home.to_owned();
    }
    let n = arg.unicode_len();
    if n >= 2 && arg.get_char(0) == '~' && arg.get_char(1) == '/' {
        let rest = arg.substring_char(1, n);
        let r = concat_str(home, rest);
        proof {
            assert(arg@.subrange(1, arg@.len() as int) =~= arg@.skip(1));
        }
        r
    } else {
        arg.to_owned()
    }
}

/// The diagnostic `cd` prints when the target is not a directory.
pub fn cd_error_message(target: &str) -> (r: String)
    ensures
        r@ == "cd: "@ + target@ + ": No such file or directory"@,
{
    let mut r = concat_str("cd: ", target);
    r.append(": No such file or directory");
    r
}

/// The exit code and diagnostic of one `cd` attempt: success changes
/// nothing visible; failure yields `-1` and a message naming the
/// target, and the working directory is left as it was.
pub fn cd_outcome(target: &str, changed: bool) -> (r: (ExitCode, Option<String>))
    ensures
        changed ==> r.0 == 0 && r.1 is None,
        !changed ==> r.0 == -1 && r.1 is Some && r.1->Some_0@ == "cd: "@ + target@
            + ": No such file or directory"@,
{
    if changed {
        (0, None)
    } else {
        (-1, Some(cd_error_message(target)))
    }
}

impl BuiltinCommand {
    /// Parses one builtin command line, checking the argument count
    /// and shape that each builtin demands.
    pub fn parse(command: &str, args: &Vec<String>) -> (r: Result<
        BuiltinCommand,
        ParseCommandError,
    >)
        requires
            is_builtin_name(command@),
        ensures
            builtin_parse_post(command@, args@, r),
    {
        if str_eq(command, "echo") {
            let content = if args.len() > 0 {
                join_args(args)
            } else {
                String::from_str("\n")
            };
            Ok(BuiltinCommand::Echo(content))
        } else if str_eq(command, "type") {
            match Type::parse(command, args) {
                Ok(t) => Ok(BuiltinCommand::Type(t)),
                Err(e) => Err(e),
            }
        } else if str_eq(command, "history") {
            if args.len() > 1 {
                return Err(
                    ParseCommandError::MoreArgs(command.to_owned(), clone_strings(args), 1),
                );
            }
            if args.len() == 0 {
                return Ok(BuiltinCommand::History(-1));
            }
            match crate::numbers::parse_i64(args[0].as_str()) {
                Some(n) => Ok(BuiltinCommand::History(n)),
                None => Err(
                    ParseCommandError::InvalidNumber(command.to_owned(), clone_strings(args)),
                ),
            }
        } else if str_eq(command, "pwd") {
            if args.len() > 0 {
                return Err(
                    ParseCommandError::MoreArgs(command.to_owned(), clone_strings(args), 0),
                );
            }
            Ok(BuiltinCommand::Pwd)
        } else if str_eq(command, "cd") {
            if args.len() > 1 {
                return Err(
                    ParseCommandError::MoreArgs(command.to_owned(), clone_strings(args), 1),
                );
            }
            let target = if args.len() == 1 {
                args[0].clone()
            } else {
                String::from_str("~")
            };
            Ok(BuiltinCommand::Cd(target))
        } else {
            if args.len() > 1 {
                return Err(
                    ParseCommandError::MoreArgs(command.to_owned(), clone_strings(args), 1),
                );
            }
            if args.len() == 0 {
                return Ok(BuiltinCommand::Exit(0));
            }
            match parse_i32(args[0].as_str()) {
                Some(n) => Ok(BuiltinCommand::Exit(n)),
                None => Err(
                    ParseCommandError::InvalidNumber(command.to_owned(), clone_strings(args)),
                ),
            }
        }
    }
}

} // verus!
