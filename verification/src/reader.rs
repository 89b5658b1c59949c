//! Judging whether one physical line is a complete logical line: a
//! trailing backslash or an open quote or bracket asks for another
//! line, and mismatched brackets are rejected outright.

use vstd::prelude::*;

use crate::strutil::str_to_chars;

verus! {

/// The judgement on one line of input.
#[derive(Debug, PartialEq, Eq)]
pub enum LineStatus {
    Valid,
    Incomplete,
    Invalid(String),
}

/// The modelled judgement: balanced, still open, or a mismatch at one
/// bracket (`unpaired` tells a closer with no opener from a wrongly
/// closed opener).
pub enum ValidateModel {
    Valid,
    Incomplete,
    Mismatch(char, bool),
}

/// An opening bracket.
pub open spec fn is_open_bracket(c: char) -> bool {
    c == '(' || c == '[' || c == '{'
}

/// A closing bracket.
pub open spec fn is_close_bracket(c: char) -> bool {
    c == ')' || c == ']' || c == '}'
}

/// The closer that matches an opener.
pub open spec fn closes(open: char, close: char) -> bool {
    (open == '(' && close == ')') || (open == '[' && close == ']') || (open == '{' && close
        == '}')
}

/// Scans the line, tracking quote state and a stack of open brackets.
/// A backslash outside single quotes hides the next character; quotes
/// toggle only outside the other kind of quote; brackets count only
/// outside all quotes.
pub open spec fn spec_scan_brackets(
    s: Seq<char>,
    in_single: bool,
    in_double: bool,
    stack: Seq<char>,
) -> ValidateModel
    decreases s.len(),
{
    if s.len() == 0 {
        if stack.len() == 0 && !in_single && !in_double {
            ValidateModel::Valid
        } else {
            ValidateModel::Incomplete
        }
    } else {
        let c = s[0];
        if c == '\\' && !in_single {
            if s.len() >= 2 {
                spec_scan_brackets(s.skip(2), in_single, in_double, stack)
            } else {
                spec_scan_brackets(s.skip(1), in_single, in_double, stack)
            }
        } else if c == '\'' {
            spec_scan_brackets(s.skip(1), !in_single && !in_double, in_double, stack)
        } else if c == '"' {
            spec_scan_brackets(s.skip(1), in_single, !in_single && !in_double, stack)
        } else if is_open_bracket(c) && !in_single && !in_double {
            spec_scan_brackets(s.skip(1), in_single, in_double, stack.push(c))
        } else if is_close_bracket(c) && !in_single && !in_double {
            if stack.len() == 0 {
                ValidateModel::Mismatch(c, true)
            } else if closes(stack.last(), c) {
                spec_scan_brackets(s.skip(1), in_single, in_double, stack.drop_last())
            } else {
                ValidateModel::Mismatch(stack.last(), false)
            }
        } else {
            spec_scan_brackets(s.skip(1), in_single, in_double, stack)
        }
    }
}

/// The judgement on a whole line.
pub open spec fn spec_validate(s: Seq<char>) -> ValidateModel {
    spec_scan_brackets(s, false, false, Seq::empty())
}

/// The diagnostic for a bracket mismatch.
pub open spec fn mismatch_message(c: char, unpaired: bool) -> Seq<char> {
    if unpaired {
        "Mismatched brackets: '"@ + seq![c] + "' is unpaired"@
    } else {
        "Mismatched brackets: '"@ + seq![c] + "' is not properly closed"@
    }
}

/// Whether an executable judgement agrees with the model.
pub open spec fn status_matches(r: LineStatus, m: ValidateModel) -> bool {
    match m {
        ValidateModel::Valid => r is Valid,
        ValidateModel::Incomplete => r is Incomplete,
        ValidateModel::Mismatch(c, unpaired) => match r {
            LineStatus::Invalid(msg) => msg@ == mismatch_message(c, unpaired),
            _ => false,
        },
    }
}

/// Checks one line for balanced quotes and brackets.
pub fn validate_brackets_and_quote(input: &str) -> (r: LineStatus)
    ensures
        status_matches(r, spec_validate(input@)),
{
    let chars = str_to_chars(input);
    let n = chars.len();
    let mut in_single = false;
    let mut in_double = false;
    let mut stack: Vec<char> = Vec::new();
    let mut i: usize = 0;
    proof {
        assert(chars@.skip(0) =~= chars@);
    }
    while i < n
        invariant
            n == chars@.len(),
            chars@ == input@,
            i <= n,
            spec_validate(input@) == spec_scan_brackets(
                chars@.skip(i as int),
                in_single,
                in_double,
                stack@,
            ),
        decreases n - i,
    {
        let ghost rem = chars@.skip(i as int);
        assert(rem[0] == chars@[i as int]);
        let c = chars[i];
        if c == '\\' && !in_single {
            if i + 1 < n {
                proof {
                    assert(rem.skip(2) =~= chars@.skip(i + 2));
                }
                i = i + 2;
            } else {
                proof {
                    assert(rem.skip(1) =~= chars@.skip(i + 1));
                }
                i = i + 1;
            }
        } else {
            proof {
                assert(rem.skip(1) =~= chars@.skip(i + 1));
            }
            if c == '\'' {
                let was_out = !in_single && !in_double;
                in_single = was_out;
            } else if c == '"' {
                let was_out = !in_single && !in_double;
                in_double = was_out;
            } else if (c == '(' || c == '[' || c == '{') && !in_single && !in_double {
                stack.push(c);
            } else if (c == ')' || c == ']' || c == '}') && !in_single && !in_double {
                if stack.len() == 0 {
                    let mut msg = "Mismatched brackets: '".to_owned();
                    msg.append(crate::strutil::chars_to_string(&single_char(c)).as_str());
                    msg.append("' is unpaired");
                    return LineStatus::Invalid(msg);
                }
                let wanted = stack[stack.len() - 1];
                let closed = (wanted == '(' && c == ')') || (wanted == '[' && c == ']') || (wanted
                    == '{' && c == '}');
                if closed {
                    let _ = stack.pop();
                } else {
                    let mut msg = "Mismatched brackets: '".to_owned();
                    msg.append(crate::strutil::chars_to_string(&single_char(wanted)).as_str());
                    msg.append("' is not properly closed");
                    return LineStatus::Invalid(msg);
                }
            }
            i = i + 1;
        }
    }
    proof {
        assert(chars@.skip(i as int) =~= Seq::<char>::empty());
    }
    if stack.len() == 0 && !in_single && !in_double {
        LineStatus::Valid
    } else {
        LineStatus::Incomplete
    }
}

fn single_char(c: char) -> (v: Vec<char>)
    ensures
        v@ == seq![c],
{
    let mut v: Vec<char> = Vec::new();
    v.push(c);
    proof {
        assert(v@ =~= seq![c]);
    }
    v
}

/// The interactive helper: judges whether a line needs a
/// continuation.
#[derive(Debug, PartialEq, Eq)]
pub struct ShellHelper {
}

impl ShellHelper {
    /// A helper with no state.
    pub fn new() -> Self {
        Self {  }
    }

    /// A line ending in a backslash asks for another line; otherwise
    /// quotes and brackets decide.
    pub fn validate(&self, input: &str) -> (r: LineStatus)
        ensures
            (input@.len() > 0 && input@.last() == '\\' ==> r is Incomplete),
            (!(input@.len() > 0 && input@.last() == '\\') ==> status_matches(
                r,
                spec_validate(input@),
            )),
    {
        let n = input.unicode_len();
        if n > 0 && input.get_char(n - 1) == '\\' {
            LineStatus::Incomplete
        } else {
            validate_brackets_and_quote(input)
        }
    }
}

} // verus!
