//! The pipeline parser: recognising redirect tokens, and grouping a
//! token stream into pipeline stages with their stream wiring.

use vstd::prelude::*;

use crate::builtin::{echo_content, is_builtin_name, BuiltinCommand};
use crate::command::{Command, ParseCommandError};
use crate::executable::is_lookup_candidate;
use crate::numbers::{int_literal_val, is_int_literal};
use crate::redirect::{reader_model, writer_model, Reader, ReaderModel, Writer, WriterModel};
use crate::strutil::{str_eq, str_to_chars};
use crate::tokenize::token_views;

verus! {

// ---------------------------------------------------------------------
// Redirect extraction
// ---------------------------------------------------------------------

/// The parts of a redirect token after its operator: either nothing,
/// or `&` and a stream digit.
pub open spec fn spec_after_op(origin: Seq<char>, op: Seq<char>, tail: Seq<char>) -> Option<
    (Seq<char>, Seq<char>, Seq<char>),
> {
    if tail.len() == 0 {
        Some((origin, op, Seq::empty()))
    } else if tail.len() == 2 && tail[0] == '&' && (tail[1] == '1' || tail[1] == '2') {
        Some((origin, op, tail.skip(1)))
    } else {
        None
    }
}

/// Splits a redirect token into origin digit, operator and duplicate
/// target: an optional `1` or `2`, then `>` or `>>`, then optionally
/// `&1` or `&2`.  Anything else is not a redirect.
pub open spec fn spec_extract_redirect(s: Seq<char>) -> Option<(Seq<char>, Seq<char>, Seq<char>)> {
    let osplit: int = if s.len() > 0 && (s[0] == '1' || s[0] == '2') {
        1
    } else {
        0
    };
    let origin = s.take(osplit);
    let rest = s.skip(osplit);
    if rest.len() >= 2 && rest[0] == '>' && rest[1] == '>' {
        spec_after_op(origin, seq!['>', '>'], rest.skip(2))
    } else if rest.len() >= 1 && rest[0] == '>' {
        spec_after_op(origin, seq!['>'], rest.skip(1))
    } else {
        None
    }
}

/// Recognises a redirect token and returns its origin digit, operator
/// and duplicate target, each possibly empty.
pub fn extract_redirect(s: &str) -> (r: Option<(String, String, String)>)
    ensures
        r.is_some() == spec_extract_redirect(s@).is_some(),
        (r matches Some(t) ==> spec_extract_redirect(s@) matches Some(m) && t.0@ == m.0 && t.1@
            == m.1 && t.2@ == m.2),
{
    let chars = str_to_chars(s);
    let n = chars.len();
    let osplit: usize = if n > 0 && (chars[0] == '1' || chars[0] == '2') {
        1
    } else {
        0
    };
    let ghost origin = s@.take(osplit as int);
    let ghost rest = s@.skip(osplit as int);
    // the operator
    proof {
        if rest.len() >= 1 {
            assert(rest[0] == s@[osplit as int]);
        }
        if rest.len() >= 2 {
            assert(rest[1] == s@[osplit + 1]);
        }
    }
    let op_len: usize = if n >= osplit + 2 && chars[osplit] == '>' && chars[osplit + 1] == '>' {
        2
    } else if n >= osplit + 1 && chars[osplit] == '>' {
        1
    } else {
        return None;
    };
    let ghost ghost_op: Seq<char> = if op_len == 2 {
        seq!['>', '>']
    } else {
        seq!['>']
    };
    let tail_start = osplit + op_len;
    let ghost tail = rest.skip(op_len as int);
    proof {
        assert(tail =~= s@.skip(tail_start as int));
    }
    // the duplicate target
    if n == tail_start {
        proof {
            assert(tail.len() == 0);
        }
        let origin_s = if osplit == 1 {
            char_string(chars[0])
        } else {
            String::new()
        };
        let op_s = if op_len == 2 {
            String::from_str(">>")
        } else {
            String::from_str(">")
        };
        proof {
            assert(origin_s@ =~= origin);
            assert(">>"@ =~= seq!['>', '>']) by {
                reveal_strlit(">>");
            }
            assert(">"@ =~= seq!['>']) by {
                reveal_strlit(">");
            }
        }
        Some((origin_s, op_s, String::new()))
    } else if n == tail_start + 2 && chars[tail_start] == '&' && (chars[tail_start + 1] == '1'
        || chars[tail_start + 1] == '2') {
        proof {
            assert(tail.len() == 2);
            assert(tail[0] == s@[tail_start as int]);
            assert(tail[1] == s@[tail_start + 1]);
        }
        let origin_s = if osplit == 1 {
            char_string(chars[0])
        } else {
            String::new()
        };
        let op_s = if op_len == 2 {
            String::from_str(">>")
        } else {
            String::from_str(">")
        };
        let target_s = char_string(chars[tail_start + 1]);
        proof {
            assert(origin_s@ =~= origin);
            assert(target_s@ =~= tail.skip(1));
            assert(">>"@ =~= seq!['>', '>']) by {
                reveal_strlit(">>");
            }
            assert(">"@ =~= seq!['>']) by {
                reveal_strlit(">");
            }
        }
        Some((origin_s, op_s, target_s))
    } else {
        proof {
            if tail.len() >= 1 {
                assert(tail[0] == s@[tail_start as int]);
            }
            if tail.len() >= 2 {
                assert(tail[1] == s@[tail_start + 1]);
            }
            assert(spec_after_op(origin, ghost_op, tail) is None);
        }
        None
    }
}

/// A one-character string.
fn char_string(c: char) -> (r: String)
    ensures
        r@ == seq![c],
{
    let mut v: Vec<char> = Vec::new();
    v.push(c);
    let r = crate::strutil::chars_to_string(&v);
    proof {
        assert(v@ =~= seq![c]);
    }
    r
}

// ---------------------------------------------------------------------
// The model of the stage list
// ---------------------------------------------------------------------

/// One modelled pipeline stage: its words, stream wiring, and whether
/// it blocks the read loop.
pub struct StageModel {
    pub args: Seq<Seq<char>>,
    pub reader: ReaderModel,
    pub output_writer: WriterModel,
    pub error_writer: WriterModel,
    pub use_pipe: bool,
}

/// The outcome of parsing a token stream: a stage list, or one of the
/// ways it can fail.
pub enum ParseModel {
    Stages(Seq<StageModel>),
    Syntax,
    Unsupported(Seq<char>),
    CmdError(Seq<Seq<char>>),
}

/// The running state of the stage parser.
pub struct ParseState {
    pub stages: Seq<StageModel>,
    pub cur: Seq<Seq<char>>,
    pub reader: Option<ReaderModel>,
    pub out: Option<WriterModel>,
    pub err: Option<WriterModel>,
    pub next_pipe: int,
}

/// The state before any token has been read.
pub open spec fn init_parse_state() -> ParseState {
    ParseState {
        stages: Seq::empty(),
        cur: Seq::empty(),
        reader: None,
        out: None,
        err: None,
        next_pipe: 0,
    }
}

/// Closes the current stage with the given output sink; unset streams
/// fall back to the standard ones.
pub open spec fn stage_of(st: ParseState, out_final: WriterModel, blocks: bool) -> StageModel {
    StageModel {
        args: st.cur,
        reader: match st.reader {
            Some(rd) => rd,
            None => ReaderModel::Stdin,
        },
        output_writer: out_final,
        error_writer: match st.err {
            Some(w) => w,
            None => WriterModel::Stderr,
        },
        use_pipe: blocks,
    }
}

/// The output sink of a stage not followed by a pipe.
pub open spec fn out_or_stdout(o: Option<WriterModel>) -> WriterModel {
    match o {
        Some(w) => w,
        None => WriterModel::Stdout,
    }
}

/// The separator tokens the parser recognises.
pub open spec fn is_separator_token(t: Seq<char>) -> bool {
    t == seq!['|'] || t == seq![';'] || t == seq!['&'] || t == seq!['&', '&'] || t == seq![
        '|',
        '|',
    ]
}

/// Whether parsing a builtin's argument words fails.
pub open spec fn builtin_errs(name: Seq<char>, rest: Seq<Seq<char>>) -> bool {
    if name == "echo"@ {
        false
    } else if name == "type"@ {
        rest.len() == 0
    } else if name == "history"@ {
        rest.len() > 1 || (rest.len() == 1 && !(is_int_literal(rest[0]) && i64::MIN
            <= int_literal_val(rest[0]) <= i64::MAX))
    } else if name == "pwd"@ {
        rest.len() > 0
    } else if name == "cd"@ {
        rest.len() > 1
    } else if name == "exit"@ {
        rest.len() > 1 || (rest.len() == 1 && !(is_int_literal(rest[0]) && i32::MIN
            <= int_literal_val(rest[0]) <= i32::MAX))
    } else {
        false
    }
}

/// One step of the stage parser: redirects are recognised before
/// separators at every position, a separator closes the current
/// stage, and any other token extends it.  A pipe wires the closed
/// stage's output (unless an explicit redirect already claimed it) to
/// a fresh pipe whose read end becomes the next stage's input.  A
/// separator with no words before it is a syntax error.
pub open spec fn spec_parse_at(tokens: Seq<Seq<char>>, i: int, st: ParseState) -> ParseModel
    decreases tokens.len() - i,
{
    if i >= tokens.len() || i < 0 {
        if st.cur.len() > 0 {
            if is_builtin_name(st.cur[0]) && builtin_errs(st.cur[0], st.cur.skip(1)) {
                ParseModel::CmdError(st.cur)
            } else {
                ParseModel::Stages(st.stages.push(stage_of(st, out_or_stdout(st.out), true)))
            }
        } else {
            ParseModel::Stages(st.stages)
        }
    } else {
        let t = tokens[i];
        match spec_extract_redirect(t) {
            Some(parts) => {
                if parts.2.len() > 0 {
                    let w = if parts.2 == seq!['2'] {
                        WriterModel::Stderr
                    } else {
                        WriterModel::Stdout
                    };
                    let st1 = if parts.0 == seq!['2'] {
                        ParseState { err: Some(w), ..st }
                    } else {
                        ParseState { out: Some(w), ..st }
                    };
                    spec_parse_at(tokens, i + 1, st1)
                } else if i + 1 >= tokens.len() {
                    ParseModel::Syntax
                } else {
                    let w = WriterModel::File {
                        path: tokens[i + 1],
                        append: parts.1 == seq!['>', '>'],
                    };
                    let st1 = if parts.0 == seq!['2'] {
                        ParseState { err: Some(w), ..st }
                    } else {
                        ParseState { out: Some(w), ..st }
                    };
                    spec_parse_at(tokens, i + 2, st1)
                }
            },
            None => {
                if is_separator_token(t) {
                    if t != seq!['|'] && t != seq![';'] {
                        ParseModel::Unsupported(t)
                    } else if st.cur.len() == 0 {
                        ParseModel::Syntax
                    } else if is_builtin_name(st.cur[0]) && builtin_errs(
                        st.cur[0],
                        st.cur.skip(1),
                    ) {
                        ParseModel::CmdError(st.cur)
                    } else if t == seq!['|'] {
                        let k = st.next_pipe;
                        let stage = stage_of(
                            st,
                            match st.out {
                                None => WriterModel::Pipe(k),
                                Some(w) => w,
                            },
                            false,
                        );
                        spec_parse_at(
                            tokens,
                            i + 1,
                            ParseState {
                                stages: st.stages.push(stage),
                                cur: Seq::empty(),
                                reader: Some(ReaderModel::Pipe(k)),
                                out: None,
                                err: None,
                                next_pipe: k + 1,
                            },
                        )
                    } else {
                        let stage = stage_of(st, out_or_stdout(st.out), true);
                        spec_parse_at(
                            tokens,
                            i + 1,
                            ParseState {
                                stages: st.stages.push(stage),
                                cur: Seq::empty(),
                                reader: None,
                                out: None,
                                err: None,
                                next_pipe: st.next_pipe,
                            },
                        )
                    }
                } else {
                    spec_parse_at(tokens, i + 1, ParseState { cur: st.cur.push(t), ..st })
                }
            },
        }
    }
}

/// The modelled outcome of parsing a whole token stream.
pub open spec fn spec_parse(tokens: Seq<Seq<char>>) -> ParseModel {
    spec_parse_at(tokens, 0, init_parse_state())
}

// ---------------------------------------------------------------------
// Correspondence between commands and modelled stages
// ---------------------------------------------------------------------

/// What a parsed builtin value must hold for the given words.
pub open spec fn builtin_matches(b: BuiltinCommand, name: Seq<char>, rest: Seq<Seq<char>>) -> bool {
    if name == "echo"@ {
        match b {
            BuiltinCommand::Echo(c) => c@ == echo_content(rest),
            _ => false,
        }
    } else if name == "type"@ {
        match b {
            BuiltinCommand::Type(t) => token_views(t.names()) == rest,
            _ => false,
        }
    } else if name == "history"@ {
        match b {
            BuiltinCommand::History(n) => if rest.len() == 0 {
                n == -1
            } else {
                rest.len() == 1 && n as int == int_literal_val(rest[0])
            },
            _ => false,
        }
    } else if name == "pwd"@ {
        b is Pwd
    } else if name == "cd"@ {
        match b {
            BuiltinCommand::Cd(t) => t@ == if rest.len() == 1 {
                rest[0]
            } else {
                "~"@
            },
            _ => false,
        }
    } else if name == "exit"@ {
        match b {
            BuiltinCommand::Exit(x) => if rest.len() == 0 {
                x == 0
            } else {
                rest.len() == 1 && x as int == int_literal_val(rest[0])
            },
            _ => false,
        }
    } else {
        false
    }
}

/// What a resolved command value must hold for a stage's words: the
/// empty name is empty, a builtin name parses as that builtin, and any
/// other name becomes an executable found on the search path or an
/// unknown command.
pub open spec fn command_matches(c: Command, args: Seq<Seq<char>>, dirs: Seq<String>) -> bool {
    args.len() > 0 && {
        let name = args[0];
        let rest = args.skip(1);
        if name.len() == 0 {
            c is Empty
        } else if is_builtin_name(name) {
            match c {
                Command::BuiltinCommand(b) => builtin_matches(b, name, rest),
                _ => false,
            }
        } else {
            match c {
                Command::Executable(e) => e.name@ == name && token_views(e.args@) == rest
                    && is_lookup_candidate(e.path@, name, dirs),
                Command::Unknown(u) => u.command@ == name && token_views(u.args@) == rest,
                _ => false,
            }
        }
    }
}

/// What a parse error value must hold for the words of the stage that
/// failed.
pub open spec fn cmd_error_matches(e: ParseCommandError, name: Seq<char>, rest: Seq<Seq<char>>) -> bool {
    match e {
        ParseCommandError::LessArgs(c, a, n) => name == "type"@ && c@ == name && token_views(a@)
            == rest && n == 1,
        ParseCommandError::MoreArgs(c, a, n) => c@ == name && token_views(a@) == rest && ((name
            == "history"@ && n == 1 && rest.len() > 1) || (name == "pwd"@ && n == 0) || (name
            == "cd"@ && n == 1) || (name == "exit"@ && n == 1 && rest.len() > 1)),
        ParseCommandError::InvalidNumber(c, a) => c@ == name && token_views(a@) == rest && (name
            == "history"@ || name == "exit"@),
        ParseCommandError::UnknownFlag(_) => false,
    }
}

// ---------------------------------------------------------------------
// The executable stage parser
// ---------------------------------------------------------------------

/// Which standard stream a redirect rebinds.
#[derive(Debug, PartialEq, Eq, Clone, Copy)]
pub enum RedirectIO {
    Stdout,
    Stderr,
}

/// The ways parsing a token stream fails.
#[derive(Debug, PartialEq, Eq)]
pub enum ParseError {
    Syntax,
    Unsupported(String),
    Command(ParseCommandError),
}

impl ParseError {
    /// The single-line diagnostic for this error.
    pub fn message(&self) -> (r: String)
        ensures
            (self is Syntax ==> r@ == "syntax error"@),
            (self matches ParseError::Unsupported(t) ==> r@ == "unsupported separator: "@ + t@),
            (self matches ParseError::Command(e) ==> ((e matches ParseCommandError::LessArgs(
                c,
                _,
                _,
            ) ==> r@ == c@ + ": not enough arguments"@) && (e
                matches ParseCommandError::MoreArgs(c, _, _) ==> r@ == c@
                + ": too many arguments"@) && (e matches ParseCommandError::InvalidNumber(c, _)
                ==> r@ == c@ + ": invalid number"@) && (e matches ParseCommandError::UnknownFlag(
                f,
            ) ==> r@ == "unknown parameter: "@ + f@))),
    {
        match self {
            ParseError::Syntax => String::from_str("syntax error"),
            ParseError::Unsupported(t) => crate::strutil::concat_str(
                "unsupported separator: ",
                t.as_str(),
            ),
            ParseError::Command(e) => e.message(),
        }
    }
}

/// One pipeline stage, ready to run: the resolved command and its
/// stream bindings.
#[derive(Debug, PartialEq, Eq)]
pub struct CommandExecution {
    pub command: Command,
    pub reader: Reader,
    pub output_writer: Writer,
    pub error_writer: Writer,
    pub use_pipe: bool,
}

impl CommandExecution {
    /// Packs one stage.
    pub fn new(
        command: Command,
        reader: Reader,
        output_writer: Writer,
        error_writer: Writer,
        use_pipe: bool,
    ) -> (s: Self)
        ensures
            s.command == command,
            s.reader == reader,
            s.output_writer == output_writer,
            s.error_writer == error_writer,
            s.use_pipe == use_pipe,
    {
        Self { command, reader, output_writer, error_writer, use_pipe }
    }
}

impl Default for CommandExecution {
    /// An empty stage bound to the standard streams that blocks the
    /// read loop.
    fn default() -> (s: Self)
        ensures
            s.command is Empty,
            s.reader is Stdin,
            s.output_writer is Stdout,
            s.error_writer is Stderr,
            s.use_pipe,
    {
        Self {
            command: Command::Empty,
            reader: Reader::Stdin,
            output_writer: Writer::Stdout,
            error_writer: Writer::Stderr,
            use_pipe: true,
        }
    }
}

/// An executable stage carries exactly what its model prescribes.
pub open spec fn stage_matches(s: CommandExecution, m: StageModel, dirs: Seq<String>) -> bool {
    &&& command_matches(s.command, m.args, dirs)
    &&& reader_model(s.reader) == m.reader
    &&& writer_model(s.output_writer) == m.output_writer
    &&& writer_model(s.error_writer) == m.error_writer
    &&& s.use_pipe == m.use_pipe
}

/// What recognising a redirect at `pos` must produce: no redirect, a
/// duplicate of a standard stream consuming one token, a file sink
/// consuming two, or a syntax error when the file name is missing.
pub open spec fn parse_redirect_post(
    tv: Seq<Seq<char>>,
    pos: int,
    r: Result<Option<(RedirectIO, Writer, usize)>, ParseError>,
) -> bool {
    match spec_extract_redirect(tv[pos]) {
        None => match r {
            Ok(o) => o is None,
            _ => false,
        },
        Some(parts) => {
            if parts.2.len() > 0 {
                match r {
                    Ok(Some((io, w, num))) => ((io is Stderr) == (parts.0 == seq!['2']))
                        && writer_model(w) == (if parts.2 == seq!['2'] {
                        WriterModel::Stderr
                    } else {
                        WriterModel::Stdout
                    }) && num == 1,
                    _ => false,
                }
            } else if pos + 1 >= tv.len() {
                match r {
                    Err(e) => e is Syntax,
                    _ => false,
                }
            } else {
                match r {
                    Ok(Some((io, w, num))) => ((io is Stderr) == (parts.0 == seq!['2']))
                        && writer_model(w) == (WriterModel::File {
                        path: tv[pos + 1],
                        append: parts.1 == seq!['>', '>'],
                    }) && num == 2,
                    _ => false,
                }
            }
        },
    }
}

/// Recognises a redirect at `start_pos` and yields the stream it
/// rebinds, the sink, and how many tokens it consumed.
pub fn parse_redirect(tokens: &Vec<String>, start_pos: usize) -> (r: Result<
    Option<(RedirectIO, Writer, usize)>,
    ParseError,
>)
    requires
        start_pos < tokens@.len(),
    ensures
        parse_redirect_post(token_views(tokens@), start_pos as int, r),
{
    let ghost tv = token_views(tokens@);
    proof {
        assert(tv[start_pos as int] == tokens@[start_pos as int]@);
    }
    match extract_redirect(tokens[start_pos].as_str()) {
        None => Ok(None),
        Some((origin, op, target)) => {
            let io = if str_eq(origin.as_str(), "2") {
                RedirectIO::Stderr
            } else {
                RedirectIO::Stdout
            };
            proof {
                assert("2"@ =~= seq!['2']) by {
                    reveal_strlit("2");
                }
            }
            if target.unicode_len() > 0 {
                let w = if str_eq(target.as_str(), "2") {
                    Writer::Stderr
                } else {
                    Writer::Stdout
                };
                Ok(Some((io, w, 1)))
            } else if tokens.len() - start_pos == 1 {
                Err(ParseError::Syntax)
            } else {
                let w = Writer::File {
                    path: tokens[start_pos + 1].clone(),
                    append: str_eq(op.as_str(), ">>"),
                };
                proof {
                    assert(">>"@ =~= seq!['>', '>']) by {
                        reveal_strlit(">>");
                    }
                    assert(tv[start_pos + 1] == tokens@[start_pos + 1]@);
                }
                Ok(Some((io, w, 2)))
            }
        },
    }
}

/// Carries the contract of `Command::parse` over to the view-level
/// stage predicates.
proof fn lemma_close_command(
    name: Seq<char>,
    args_s: Seq<String>,
    lookup: Option<String>,
    r: Result<Command, ParseCommandError>,
    dirs: Seq<String>,
    full: Seq<Seq<char>>,
)
    requires
        crate::command::command_parse_post(name, args_s, lookup, r),
        (lookup matches Some(p) ==> is_lookup_candidate(p@, name, dirs)),
        full.len() > 0,
        full[0] == name,
        full.skip(1) == token_views(args_s),
    ensures
        (r matches Ok(c) ==> command_matches(c, full, dirs)),
        (r matches Err(e) ==> is_builtin_name(name) && builtin_errs(name, full.skip(1))
            && cmd_error_matches(e, name, full.skip(1))),
        (r is Ok ==> !(is_builtin_name(name) && builtin_errs(name, full.skip(1)))),
{
    crate::builtin::lemma_builtin_names_distinct();
    let rest = full.skip(1);
    assert(rest.len() == args_s.len());
    assert forall|j: int| 0 <= j < args_s.len() implies #[trigger] rest[j] == args_s[j]@ by {
        assert(token_views(args_s)[j] == args_s[j]@);
    }
    if name.len() == 0 {
    } else if is_builtin_name(name) {
        if args_s.len() >= 1 {
            assert(rest[0] == args_s[0]@);
        }
        match r {
            Ok(c) => {
                match c {
                    Command::BuiltinCommand(b) => {
                        assert(crate::builtin::builtin_parse_post(
                            name,
                            args_s,
                            Ok::<BuiltinCommand, ParseCommandError>(b),
                        ));
                        if name == "type"@ {
                            match b {
                                BuiltinCommand::Type(t) => {
                                    assert(t.names() == args_s);
                                    assert(token_views(t.names()) == rest);
                                },
                                _ => {
                                    assert(args_s.len() != 0 || crate::builtin::builtin_parse_post(
                                        name,
                                        args_s,
                                        Ok::<BuiltinCommand, ParseCommandError>(b),
                                    ) == false);
                                    assert(args_s.len() == 0 || crate::builtin::builtin_parse_post(
                                        name,
                                        args_s,
                                        Ok::<BuiltinCommand, ParseCommandError>(b),
                                    ) == false);
                                    assert(false);
                                },
                            }
                        }
                        if name == "echo"@ {
                            match b {
                                BuiltinCommand::Echo(ec) => {
                                    assert(ec@ == echo_content(token_views(args_s)));
                                },
                                _ => {
                                    assert(false);
                                },
                            }
                        }
                        assert(builtin_matches(b, name, rest));
                        assert(!builtin_errs(name, rest));
                    },
                    _ => {
                        assert(false);
                    },
                }
            },
            Err(e) => {},
        }
    } else {
        match r {
            Ok(c) => {
                match c {
                    Command::Executable(e) => {
                        assert(e.args@ == args_s);
                        assert(token_views(e.args@) == rest);
                    },
                    Command::Unknown(u) => {
                        assert(u.args@ == args_s);
                        assert(token_views(u.args@) == rest);
                    },
                    _ => {
                        assert(false);
                    },
                }
            },
            Err(_) => {
                assert(false);
            },
        }
    }
}

/// The model of a pending reader.
pub open spec fn opt_reader_model(o: Option<Reader>) -> Option<ReaderModel> {
    match o {
        Some(rd) => Some(reader_model(rd)),
        None => None,
    }
}

/// The model of a pending writer.
pub open spec fn opt_writer_model(o: Option<Writer>) -> Option<WriterModel> {
    match o {
        Some(w) => Some(writer_model(w)),
        None => None,
    }
}

/// The modelled parser state matching the executable parser's locals.
pub open spec fn cur_state(
    ms: Seq<StageModel>,
    cur_s: Seq<String>,
    reader: Option<Reader>,
    out: Option<Writer>,
    err: Option<Writer>,
    np: int,
) -> ParseState {
    ParseState {
        stages: ms,
        cur: token_views(cur_s),
        reader: opt_reader_model(reader),
        out: opt_writer_model(out),
        err: opt_writer_model(err),
        next_pipe: np,
    }
}

/// What `parse_tokens` must return, given the modelled outcome.
pub open spec fn parse_tokens_post(
    tv: Seq<Seq<char>>,
    dirs: Seq<String>,
    r: Result<Vec<CommandExecution>, ParseError>,
) -> bool {
    let m = spec_parse(tv);
    match r {
        Ok(stages) => match m {
            ParseModel::Stages(ms) => stages@.len() == ms.len() && forall|i: int|
                0 <= i < ms.len() ==> stage_matches(#[trigger] stages@[i], ms[i], dirs),
            _ => false,
        },
        Err(e) => match e {
            ParseError::Syntax => m is Syntax,
            ParseError::Unsupported(s) => m matches ParseModel::Unsupported(t) && s@ == t,
            ParseError::Command(ce) => m matches ParseModel::CmdError(a) && a.len() > 0
                && cmd_error_matches(ce, a[0], a.skip(1)),
        },
    }
}

/// A word that stands on its own in a pipeline: not empty, not a
/// separator, not a redirect, and — if it names a builtin — one whose
/// bare call parses.
pub open spec fn plain_command_word(w: Seq<char>) -> bool {
    w.len() > 0 && !is_separator_token(w) && spec_extract_redirect(w) is None && !(
    is_builtin_name(w) && builtin_errs(w, Seq::<Seq<char>>::empty()))
}

/// A three-stage pipeline `a | b | c` wires stage `a`'s writer to a
/// pipe whose reader is stage `b`'s reader, and stage `b`'s writer to
/// a pipe whose reader is stage `c`'s reader; the two pipes are
/// distinct, and only stage `c` blocks the read loop.
pub proof fn lemma_three_stage_pipeline(a: Seq<char>, b: Seq<char>, c: Seq<char>)
    requires
        plain_command_word(a),
        plain_command_word(b),
        plain_command_word(c),
    ensures
        ({
            let m = spec_parse(seq![a, seq!['|'], b, seq!['|'], c]);
            &&& m matches ParseModel::Stages(ms)
            &&& (m matches ParseModel::Stages(ms) ==> {
                &&& ms.len() == 3
                &&& ms[0].args == seq![a]
                &&& ms[1].args == seq![b]
                &&& ms[2].args == seq![c]
                &&& ms[0].reader == ReaderModel::Stdin
                &&& ms[0].output_writer == WriterModel::Pipe(0)
                &&& ms[1].reader == ReaderModel::Pipe(0)
                &&& ms[1].output_writer == WriterModel::Pipe(1)
                &&& ms[2].reader == ReaderModel::Pipe(1)
                &&& ms[2].output_writer == WriterModel::Stdout
                &&& !ms[0].use_pipe
                &&& !ms[1].use_pipe
                &&& ms[2].use_pipe
            })
        }),
{
    let tv = seq![a, seq!['|'], b, seq!['|'], c];
    let pipe = seq!['|'];
    assert(!is_separator_token(a) && !is_separator_token(b) && !is_separator_token(c));
    assert(is_separator_token(pipe));
    assert(pipe != seq![';']) by {
        assert(seq!['|'][0] == '|');
        assert(seq![';'][0] == ';');
    }
    assert(spec_extract_redirect(pipe) is None) by {
        assert(pipe.skip(0) =~= pipe);
        assert(pipe[0] == '|');
    }
    reveal_with_fuel(spec_parse_at, 7);
    let st0 = init_parse_state();
    assert(tv[0] == a);
    let st1 = ParseState { cur: st0.cur.push(a), ..st0 };
    assert(spec_parse_at(tv, 0, st0) == spec_parse_at(tv, 1, st1));
    assert(st1.cur[0] == a);
    assert(st1.cur.skip(1) =~= Seq::<Seq<char>>::empty());
    let stage0 = stage_of(st1, WriterModel::Pipe(0), false);
    let st2 = ParseState {
        stages: st1.stages.push(stage0),
        cur: Seq::empty(),
        reader: Some(ReaderModel::Pipe(0)),
        out: None,
        err: None,
        next_pipe: 1,
    };
    assert(spec_parse_at(tv, 1, st1) == spec_parse_at(tv, 2, st2));
    let st3 = ParseState { cur: st2.cur.push(b), ..st2 };
    assert(spec_parse_at(tv, 2, st2) == spec_parse_at(tv, 3, st3));
    assert(st3.cur[0] == b);
    assert(st3.cur.skip(1) =~= Seq::<Seq<char>>::empty());
    let stage1 = stage_of(st3, WriterModel::Pipe(1), false);
    let st4 = ParseState {
        stages: st3.stages.push(stage1),
        cur: Seq::empty(),
        reader: Some(ReaderModel::Pipe(1)),
        out: None,
        err: None,
        next_pipe: 2,
    };
    assert(spec_parse_at(tv, 3, st3) == spec_parse_at(tv, 4, st4));
    let st5 = ParseState { cur: st4.cur.push(c), ..st4 };
    assert(spec_parse_at(tv, 4, st4) == spec_parse_at(tv, 5, st5));
    assert(st5.cur[0] == c);
    assert(st5.cur.skip(1) =~= Seq::<Seq<char>>::empty());
    let stage2 = stage_of(st5, WriterModel::Stdout, true);
    assert(spec_parse_at(tv, 5, st5) == ParseModel::Stages(st5.stages.push(stage2)));
    let ms = st5.stages.push(stage2);
    assert(ms.len() == 3);
    assert(ms[0] == stage0);
    assert(ms[1] == stage1);
    assert(ms[2] == stage2);
    assert(stage0.args =~= seq![a]);
    assert(stage1.args =~= seq![b]);
    assert(stage2.args =~= seq![c]);
}

/// Parses a token stream into pipeline stages.  Redirects are
/// recognised before separators at every position; `|` wires stages
/// through numbered pipes; `;` and the end of the line close a stage
/// that blocks the read loop; `&`, `&&` and `||` are unsupported.
pub fn parse_tokens(tokens: &Vec<String>, path_dirs: &Vec<String>) -> (r: Result<
    Vec<CommandExecution>,
    ParseError,
>)
    ensures
        parse_tokens_post(token_views(tokens@), path_dirs@, r),
{
    let ghost tv = token_views(tokens@);
    let mut idx: usize = 0;
    let mut command_exec_vec: Vec<CommandExecution> = Vec::new();
    let ghost mut ms: Seq<StageModel> = Seq::empty();
    let mut current_cmd_args: Vec<String> = Vec::new();
    let mut reader: Option<Reader> = None;
    let mut output_writer: Option<Writer> = None;
    let mut error_writer: Option<Writer> = None;
    let mut next_pipe: usize = 0;

    proof {
        assert(token_views(current_cmd_args@) =~= Seq::<Seq<char>>::empty());
        assert(cur_state(ms, current_cmd_args@, reader, output_writer, error_writer, 0)
            == init_parse_state());
    }
    while idx < tokens.len()
        invariant
            tv == token_views(tokens@),
            idx <= tokens@.len(),
            next_pipe <= idx,
            command_exec_vec@.len() == ms.len(),
            forall|i: int|
                0 <= i < ms.len() ==> stage_matches(#[trigger] command_exec_vec@[i], ms[i], path_dirs@),
            spec_parse(tv) == spec_parse_at(
                tv,
                idx as int,
                cur_state(
                    ms,
                    current_cmd_args@,
                    reader,
                    output_writer,
                    error_writer,
                    next_pipe as int,
                ),
            ),
        decreases tokens@.len() - idx,
    {
        let ghost st = cur_state(
            ms,
            current_cmd_args@,
            reader,
            output_writer,
            error_writer,
            next_pipe as int,
        );
        proof {
            assert(tv[idx as int] == tokens@[idx as int]@);
        }
        let red = parse_redirect(tokens, idx);
        match red {
            Err(e) => {
                proof {
                    assert(spec_parse_at(tv, idx as int, st) is Syntax);
                }
                return Err(e);
            },
            Ok(Some((redirect_io, writer, num))) => {
                let ghost old_idx = idx as int;
                match redirect_io {
                    RedirectIO::Stdout => {
                        output_writer = Some(writer);
                    },
                    RedirectIO::Stderr => {
                        error_writer = Some(writer);
                    },
                }
                idx = idx + num;
                proof {
                    assert(spec_parse(tv) == spec_parse_at(
                        tv,
                        idx as int,
                        cur_state(
                            ms,
                            current_cmd_args@,
                            reader,
                            output_writer,
                            error_writer,
                            next_pipe as int,
                        ),
                    ));
                }
            },
            Ok(None) => {
                let t = &tokens[idx];
                let is_pipe = str_eq(t.as_str(), "|");
                let is_semi = str_eq(t.as_str(), ";");
                let is_other_sep = str_eq(t.as_str(), "&") || str_eq(t.as_str(), "&&") || str_eq(
                    t.as_str(),
                    "||",
                );
                proof {
                    assert("|"@ =~= seq!['|']) by {
                        reveal_strlit("|");
                    }
                    assert(";"@ =~= seq![';']) by {
                        reveal_strlit(";");
                    }
                    assert("&"@ =~= seq!['&']) by {
                        reveal_strlit("&");
                    }
                    assert("&&"@ =~= seq!['&', '&']) by {
                        reveal_strlit("&&");
                    }
                    assert("||"@ =~= seq!['|', '|']) by {
                        reveal_strlit("||");
                    }
                }
                if is_other_sep {
                    return Err(ParseError::Unsupported(t.clone()));
                } else if is_pipe || is_semi {
                    if current_cmd_args.len() == 0 {
                        return Err(ParseError::Syntax);
                    }
                    let ghost full = token_views(current_cmd_args@);
                    let rest = crate::strutil::tail_strings(&current_cmd_args);
                    proof {
                        assert(full[0] == current_cmd_args@[0]@);
                        assert(full.skip(1) =~~= token_views(rest@));
                    }
                    let parsed = Command::parse(
                        current_cmd_args[0].as_str(),
                        &rest,
                        path_dirs,
                    );
                    proof {
                        let lookup = choose|lookup: Option<String>|
                            #[trigger] crate::command::command_parse_post(
                                current_cmd_args@[0]@,
                                rest@,
                                lookup,
                                parsed,
                            ) && (lookup matches Some(p) ==> is_lookup_candidate(
                                p@,
                                current_cmd_args@[0]@,
                                path_dirs@,
                            ));
                        lemma_close_command(
                            current_cmd_args@[0]@,
                            rest@,
                            lookup,
                            parsed,
                            path_dirs@,
                            full,
                        );
                    }
                    match parsed {
                        Err(e) => {
                            return Err(ParseError::Command(e));
                        },
                        Ok(c) => {
                            let stage_reader = match reader {
                                Some(rd) => rd,
                                None => Reader::Stdin,
                            };
                            let stage_err = match error_writer {
                                Some(w) => w,
                                None => Writer::Stderr,
                            };
                            if is_pipe {
                                let k = next_pipe;
                                next_pipe = next_pipe + 1;
                                let stage_out = match output_writer {
                                    Some(w) => w,
                                    None => Writer::Pipe(k),
                                };
                                let stage = CommandExecution::new(
                                    c,
                                    stage_reader,
                                    stage_out,
                                    stage_err,
                                    false,
                                );
                                let ghost smodel = stage_of(
                                    st,
                                    match st.out {
                                        None => WriterModel::Pipe(k as int),
                                        Some(w) => w,
                                    },
                                    false,
                                );
                                proof {
                                    assert(stage_matches(stage, smodel, path_dirs@));
                                }
                                command_exec_vec.push(stage);
                                proof {
                                    ms = ms.push(smodel);
                                }
                                reader = Some(Reader::Pipe(k));
                            } else {
                                let stage_out = match output_writer {
                                    Some(w) => w,
                                    None => Writer::Stdout,
                                };
                                let stage = CommandExecution::new(
                                    c,
                                    stage_reader,
                                    stage_out,
                                    stage_err,
                                    true,
                                );
                                let ghost smodel = stage_of(st, out_or_stdout(st.out), true);
                                proof {
                                    assert(stage_matches(stage, smodel, path_dirs@));
                                }
                                command_exec_vec.push(stage);
                                proof {
                                    ms = ms.push(smodel);
                                }
                                reader = None;
                            }
                            output_writer = None;
                            error_writer = None;
                            current_cmd_args = Vec::new();
                            idx = idx + 1;
                            proof {
                                assert(token_views(current_cmd_args@) =~= Seq::<
                                    Seq<char>,
                                >::empty());
                                assert(spec_parse(tv) == spec_parse_at(
                                    tv,
                                    idx as int,
                                    cur_state(
                                        ms,
                                        current_cmd_args@,
                                        reader,
                                        output_writer,
                                        error_writer,
                                        next_pipe as int,
                                    ),
                                ));
                            }
                        },
                    }
                } else {
                    let ghost cur_old = current_cmd_args@;
                    current_cmd_args.push(t.clone());
                    idx = idx + 1;
                    proof {
                        assert(token_views(cur_old.push(tokens@[idx - 1]))
                            =~~= token_views(cur_old).push(tv[idx - 1]));
                        assert(spec_parse(tv) == spec_parse_at(
                            tv,
                            idx as int,
                            cur_state(
                                ms,
                                current_cmd_args@,
                                reader,
                                output_writer,
                                error_writer,
                                next_pipe as int,
                            ),
                        ));
                    }
                }
            },
        }
    }
    if current_cmd_args.len() > 0 {
        let ghost st = cur_state(
            ms,
            current_cmd_args@,
            reader,
            output_writer,
            error_writer,
            next_pipe as int,
        );
        let ghost full = token_views(current_cmd_args@);
        let rest = crate::strutil::tail_strings(&current_cmd_args);
        proof {
            assert(full[0] == current_cmd_args@[0]@);
            assert(full.skip(1) =~~= token_views(rest@));
        }
        let parsed = Command::parse(current_cmd_args[0].as_str(), &rest, path_dirs);
        proof {
            let lookup = choose|lookup: Option<String>|
                #[trigger] crate::command::command_parse_post(
                    current_cmd_args@[0]@,
                    rest@,
                    lookup,
                    parsed,
                ) && (lookup matches Some(p) ==> is_lookup_candidate(
                    p@,
                    current_cmd_args@[0]@,
                    path_dirs@,
                ));
            lemma_close_command(
                current_cmd_args@[0]@,
                rest@,
                lookup,
                parsed,
                path_dirs@,
                full,
            );
        }
        match parsed {
            Err(e) => {
                return Err(ParseError::Command(e));
            },
            Ok(c) => {
                let stage_reader = match reader {
                    Some(rd) => rd,
                    None => Reader::Stdin,
                };
                let stage_out = match output_writer {
                    Some(w) => w,
                    None => Writer::Stdout,
                };
                let stage_err = match error_writer {
                    Some(w) => w,
                    None => Writer::Stderr,
                };
                let stage = CommandExecution::new(c, stage_reader, stage_out, stage_err, true);
                let ghost smodel = stage_of(st, out_or_stdout(st.out), true);
                proof {
                    assert(stage_matches(stage, smodel, path_dirs@));
                }
                command_exec_vec.push(stage);
                proof {
                    ms = ms.push(smodel);
                }
            },
        }
    }
    Ok(command_exec_vec)
}

} // verus!

