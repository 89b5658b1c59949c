//! The `history` builtin: viewing the in-session history list, and the
//! parsed forms that read, write or append a history file.

use vstd::prelude::*;

use crate::command::ParseCommandError;
use crate::numbers::{dec_digits, dec_len, dec_width, format_u64, int_literal_val, is_int_literal,
    parse_i64};
use crate::strutil::{chars_to_string, clone_strings};

verus! {

/// The parsed forms of the `history` builtin: show the last entries,
/// or read, overwrite or extend a history file.
#[derive(Debug, PartialEq, Eq)]
pub enum History {
    Show(Option<usize>),
    Read(String),
    Write(String),
    Append(String),
}

impl History {
    /// Parses the arguments of `history`: an optional count, or one of
    /// the flags `-r`, `-w`, `-a` followed by a file name.
    pub fn parse(command: &str, args: &Vec<String>) -> (r: Result<History, ParseCommandError>)
        ensures
            (args@.len() == 0 ==> r == Ok::<History, ParseCommandError>(History::Show(None))),
            (args@.len() == 1 ==> {
                let a0 = args@[0]@;
                if is_int_literal(a0) && 0 <= int_literal_val(a0) <= i64::MAX
                    && int_literal_val(a0) <= usize::MAX {
                    match r {
                        Ok(History::Show(Some(n))) => n as int == int_literal_val(a0),
                        _ => false,
                    }
                } else {
                    match r {
                        Err(ParseCommandError::InvalidNumber(c, a)) => c@ == command@ && a@
                            == args@,
                        _ => false,
                    }
                }
            }),
            (args@.len() == 2 ==> {
                let a0 = args@[0]@;
                if a0 == "-r"@ {
                    match r {
                        Ok(History::Read(f)) => f@ == args@[1]@,
                        _ => false,
                    }
                } else if a0 == "-w"@ {
                    match r {
                        Ok(History::Write(f)) => f@ == args@[1]@,
                        _ => false,
                    }
                } else if a0 == "-a"@ {
                    match r {
                        Ok(History::Append(f)) => f@ == args@[1]@,
                        _ => false,
                    }
                } else {
                    match r {
                        Err(ParseCommandError::UnknownFlag(f)) => f@ == args@[0]@,
                        _ => false,
                    }
                }
            }),
            (args@.len() > 2 ==> match r {
                Err(ParseCommandError::MoreArgs(c, a, n)) => c@ == command@ && a@ == args@ && n
                    == 2,
                _ => false,
            }),
    {
        if args.len() == 0 {
            Ok(History::Show(None))
        } else if args.len() == 1 {
            match parse_i64(args[0].as_str()) {
                Some(v) => {
                    if v >= 0 && (v as u64) <= (usize::MAX as u64) {
                        let n = v as usize;
                        proof {
                            assert(n as int == v as int);
                        }
                        Ok(History::Show(Some(n)))
                    } else {
                        Err(
                            ParseCommandError::InvalidNumber(
                                command.to_owned(),
                                clone_strings(args),
                            ),
                        )
                    }
                },
                None => Err(
                    ParseCommandError::InvalidNumber(command.to_owned(), clone_strings(args)),
                ),
            }
        } else if args.len() == 2 {
            let flag = &args[0];
            if crate::strutil::str_eq(flag.as_str(), "-r") {
                Ok(History::Read(args[1].clone()))
            } else if crate::strutil::str_eq(flag.as_str(), "-w") {
                Ok(History::Write(args[1].clone()))
            } else if crate::strutil::str_eq(flag.as_str(), "-a") {
                Ok(History::Append(args[1].clone()))
            } else {
                Err(ParseCommandError::UnknownFlag(flag.clone()))
            }
        } else {
            Err(ParseCommandError::MoreArgs(command.to_owned(), clone_strings(args), 2))
        }
    }
}

impl crate::command::Parse for History {
    fn parse(command: &str, args: &Vec<String>) -> Result<History, ParseCommandError> {
        History::parse(command, args)
    }
}

/// `k` spaces.
pub open spec fn spaces(k: int) -> Seq<char>
    decreases k,
{
    if k <= 0 {
        Seq::empty()
    } else {
        spaces(k - 1).push(' ')
    }
}

/// One rendered history line: three spaces, the 1-based entry number
/// right-aligned to `width` digits, two spaces, and the entry.
pub open spec fn history_line(idx: int, width: int, rec: Seq<char>) -> Seq<char> {
    "   "@ + spaces(width - dec_len(idx)) + dec_digits(idx) + "  "@ + rec
}

fn space_chars(k: usize) -> (r: Vec<char>)
    ensures
        r@ == spaces(k as int),
{
    let mut r: Vec<char> = Vec::new();
    let mut i: usize = 0;
    while i < k
        invariant
            i <= k,
            r@ == spaces(i as int),
        decreases k - i,
    {
        r.push(' ');
        i = i + 1;
    }
    r
}

/// Renders the history entries from `skip_from` on, numbered from
/// `skip_from + 1`, aligned to the width of the highest entry number.
pub fn history_lines(records: &Vec<String>, skip_from: usize) -> (lines: Vec<String>)
    requires
        skip_from <= records@.len(),
    ensures
        lines@.len() == records@.len() - skip_from,
        forall|i: int|
            0 <= i < lines@.len() ==> (#[trigger] lines@[i])@ == history_line(
                skip_from + i + 1,
                dec_len(records@.len() as int),
                records@[skip_from + i]@,
            ),
{
    let width = dec_width(records.len() as u64);
    let mut lines: Vec<String> = Vec::new();
    let mut i = skip_from;
    while i < records.len()
        invariant
            skip_from <= i <= records@.len(),
            width == dec_len(records@.len() as int),
            lines@.len() == i - skip_from,
            forall|j: int|
                0 <= j < lines@.len() ==> (#[trigger] lines@[j])@ == history_line(
                    skip_from + j + 1,
                    width as int,
                    records@[skip_from + j]@,
                ),
        decreases records@.len() - i,
    {
        let number = (i + 1) as u64;
        let digits = format_u64(number);
        let digit_width = dec_width(number);
        let pad = if width > digit_width {
            width - digit_width
        } else {
            0
        };
        let mut line = String::from_str("   ");
        line.append(chars_to_string(&space_chars(pad)).as_str());
        line.append(digits.as_str());
        line.append("  ");
        line.append(records[i].as_str());
        proof {
            if width <= digit_width {
                assert(spaces(width - dec_len(i + 1)) =~= Seq::<char>::empty());
                assert(spaces(0) =~= Seq::<char>::empty());
            }
        }
        lines.push(line);
        i = i + 1;
    }
    lines
}

/// How many leading entries are hidden when `history n` shows only the
/// last `n` of `len` entries.
pub fn show_skip(len: usize, show_num: Option<usize>) -> (r: usize)
    requires
        (show_num matches Some(n) ==> n <= len),
    ensures
        r == match show_num {
            None => 0,
            Some(n) => len - n,
        },
{
    match show_num {
        None => 0,
        Some(n) => len - n,
    }
}

} // verus!
