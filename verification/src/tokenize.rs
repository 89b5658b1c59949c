//! The tokenizer: splits one logical input line into word tokens and
//! control tokens, honouring single quotes, double quotes and backslash
//! escapes.
//!
//! The mathematical model works on the suffix of the input that is
//! still to be scanned: each `spec_parse_*` function describes one step
//! of the scan, and [`spec_tokenize_rec`] folds the steps into the
//! token sequence.  The executable functions mirror the model step for
//! step and are proved against it.

use vstd::prelude::*;

use crate::strutil::{
    chars_to_string, is_quote_or_escape, is_separator, is_space, is_word_char, quote_or_escape_char,
    separator_char, space_char, str_to_chars,
};

verus! {

// ---------------------------------------------------------------------
// Trimming
// ---------------------------------------------------------------------

/// The input with its leading whitespace removed.
pub open spec fn spec_trim_front(s: Seq<char>) -> Seq<char>
    decreases s.len(),
{
    if s.len() > 0 && is_space(s[0]) {
        spec_trim_front(s.drop_first())
    } else {
        s
    }
}

/// The input with its trailing whitespace removed.
pub open spec fn spec_trim_back(s: Seq<char>) -> Seq<char>
    decreases s.len(),
{
    if s.len() > 0 && is_space(s[s.len() - 1]) {
        spec_trim_back(s.drop_last())
    } else {
        s
    }
}

/// The input with whitespace removed at both ends.
pub open spec fn spec_trim(s: Seq<char>) -> Seq<char> {
    spec_trim_back(spec_trim_front(s))
}

// ---------------------------------------------------------------------
// Scanning measures on a suffix
// ---------------------------------------------------------------------

/// How many whitespace characters the suffix starts with.
pub open spec fn count_spaces(s: Seq<char>) -> int
    decreases s.len(),
{
    if s.len() > 0 && is_space(s[0]) {
        1 + count_spaces(s.drop_first())
    } else {
        0
    }
}

/// How many bare-word characters the suffix starts with.
pub open spec fn word_len(s: Seq<char>) -> int
    decreases s.len(),
{
    if s.len() > 0 && is_word_char(s[0]) {
        1 + word_len(s.drop_first())
    } else {
        0
    }
}

/// The index of the first occurrence of `c`, or the length if there is
/// none.
pub open spec fn dist_to_char(s: Seq<char>, c: char) -> int
    decreases s.len(),
{
    if s.len() == 0 {
        0
    } else if s[0] == c {
        0
    } else {
        1 + dist_to_char(s.drop_first(), c)
    }
}

// ---------------------------------------------------------------------
// Escapes
// ---------------------------------------------------------------------

/// What a backslash followed by `c` contributes inside double quotes:
/// `\\` and `\"` are de-escaped, an escaped newline contributes
/// nothing, anything else stays verbatim.
pub open spec fn escape_in_dquote(c: char) -> Seq<char> {
    if c == '\n' {
        Seq::empty()
    } else if c == '\\' {
        seq!['\\']
    } else if c == '"' {
        seq!['"']
    } else {
        seq!['\\', c]
    }
}

/// What a backslash followed by `c` contributes outside quotes: the
/// character itself, or nothing for an escaped newline.
pub open spec fn escape_plain(c: char) -> Seq<char> {
    if c == '\n' {
        Seq::empty()
    } else {
        seq![c]
    }
}

// ---------------------------------------------------------------------
// One step of the scan
// ---------------------------------------------------------------------

/// One bare-word step on the suffix `s`: leading whitespace, then word
/// characters, then — if the word ends at a quote or escape — the scan
/// continues in the same token, otherwise trailing whitespace is
/// consumed and the token is finished.
/// Returns (token finished, token part, characters consumed).
pub open spec fn spec_parse_native(s: Seq<char>) -> (bool, Seq<char>, int) {
    let a = count_spaces(s);
    let w = word_len(s.skip(a));
    let tok = s.subrange(a, a + w);
    if a + w < s.len() && is_quote_or_escape(s[a + w]) {
        (false, tok, a + w)
    } else {
        let b = count_spaces(s.skip(a + w));
        (true, tok, a + w + b)
    }
}

/// One single-quoted step: everything up to the next `'` is literal.
/// An unterminated quote consumes the rest and leaves the token open.
pub open spec fn spec_parse_single_quote(s: Seq<char>) -> (bool, Seq<char>, int) {
    let e = 1 + dist_to_char(s.skip(1), '\'');
    let tok = s.subrange(1, e);
    if e < s.len() {
        (e + 1 >= s.len() || is_space(s[e + 1]), tok, e + 1)
    } else {
        (false, tok, e)
    }
}

/// The body of a double-quoted region: `s` starts right after the
/// opening quote.  Returns the token contents and the index of the
/// closing quote (or the length if the quote is unterminated).
pub open spec fn spec_dquote_body(s: Seq<char>) -> (Seq<char>, int)
    decreases s.len(),
{
    if s.len() == 0 {
        (Seq::empty(), 0)
    } else if s[0] == '"' {
        (Seq::empty(), 0)
    } else if s[0] == '\\' {
        if s.len() == 1 {
            (seq!['\\'], 1)
        } else {
            let (rest, e) = spec_dquote_body(s.skip(2));
            (escape_in_dquote(s[1]) + rest, 2 + e)
        }
    } else {
        let (rest, e) = spec_dquote_body(s.skip(1));
        (seq![s[0]] + rest, 1 + e)
    }
}

/// One double-quoted step on the suffix `s` (with `s[0] == '"'`).
pub open spec fn spec_parse_double_quote(s: Seq<char>) -> (bool, Seq<char>, int) {
    let (tok, d) = spec_dquote_body(s.skip(1));
    let e = 1 + d;
    if e < s.len() {
        (e + 1 >= s.len() || is_space(s[e + 1]), tok, e + 1)
    } else {
        (false, tok, e)
    }
}

/// One backslash step on the suffix `s` (with `s[0] == '\\'`).  A
/// backslash with nothing after it is kept literally.
pub open spec fn spec_parse_backslash(s: Seq<char>, in_double_quote: bool) -> (bool, Seq<char>, int) {
    if s.len() >= 2 {
        let tok = if in_double_quote {
            escape_in_dquote(s[1])
        } else {
            escape_plain(s[1])
        };
        let finish = s.len() == 2 || (is_space(s[2]) && !in_double_quote);
        (finish, tok, 2)
    } else {
        (true, seq!['\\'], 1)
    }
}

// ---------------------------------------------------------------------
// The whole scan
// ---------------------------------------------------------------------

/// Folds scan steps over the suffix `s`.  `cur` is the token fragment
/// accumulated so far, `acc` the tokens already produced.  A separator
/// character always closes the current token and stands alone.
pub open spec fn spec_tokenize_rec(s: Seq<char>, cur: Seq<char>, acc: Seq<Seq<char>>) -> Seq<
    Seq<char>,
>
    decreases s.len(),
{
    if s.len() == 0 {
        if cur.len() > 0 {
            acc.push(cur)
        } else {
            acc
        }
    } else {
        let c = s[0];
        if is_separator(c) {
            let acc1 = if cur.len() > 0 {
                acc.push(cur)
            } else {
                acc
            };
            spec_tokenize_rec(s.skip(1), Seq::empty(), acc1.push(seq![c]))
        } else {
            let (finish, part, num) = if c == '\'' {
                spec_parse_single_quote(s)
            } else if c == '"' {
                spec_parse_double_quote(s)
            } else if c == '\\' {
                spec_parse_backslash(s, false)
            } else {
                spec_parse_native(s)
            };
            let step = if num < 1 {
                1
            } else if num > s.len() {
                s.len() as int
            } else {
                num
            };
            let cur1 = cur + part;
            if finish {
                let acc1 = if cur1.len() > 0 {
                    acc.push(cur1)
                } else {
                    acc
                };
                spec_tokenize_rec(s.skip(step), Seq::empty(), acc1)
            } else {
                spec_tokenize_rec(s.skip(step), cur1, acc)
            }
        }
    }
}

/// The token sequence of one input line: the line is trimmed and then
/// scanned from the beginning.
pub open spec fn spec_tokenize(s: Seq<char>) -> Seq<Seq<char>> {
    spec_tokenize_rec(spec_trim(s), Seq::empty(), Seq::empty())
}

/// The views of a sequence of owned strings.
pub open spec fn token_views(ts: Seq<String>) -> Seq<Seq<char>> {
    ts.map_values(|t: String| t@)
}

// ---------------------------------------------------------------------
// Characterisations of the scanning measures
// ---------------------------------------------------------------------

proof fn lemma_count_spaces_is(s: Seq<char>, n: int)
    requires
        0 <= n <= s.len(),
        forall|k: int| 0 <= k < n ==> is_space(s[k]),
        n == s.len() || !is_space(s[n]),
    ensures
        count_spaces(s) == n,
    decreases s.len(),
{
    if s.len() > 0 && is_space(s[0]) {
        lemma_count_spaces_is(s.drop_first(), n - 1);
    }
}

proof fn lemma_word_len_is(s: Seq<char>, n: int)
    requires
        0 <= n <= s.len(),
        forall|k: int| 0 <= k < n ==> is_word_char(s[k]),
        n == s.len() || !is_word_char(s[n]),
    ensures
        word_len(s) == n,
    decreases s.len(),
{
    if s.len() > 0 && is_word_char(s[0]) {
        lemma_word_len_is(s.drop_first(), n - 1);
    }
}

proof fn lemma_dist_to_char_is(s: Seq<char>, c: char, n: int)
    requires
        0 <= n <= s.len(),
        forall|k: int| 0 <= k < n ==> s[k] != c,
        n == s.len() || s[n] == c,
    ensures
        dist_to_char(s, c) == n,
    decreases s.len(),
{
    if s.len() > 0 && s[0] != c {
        lemma_dist_to_char_is(s.drop_first(), c, n - 1);
    }
}

proof fn lemma_trim_front_is(s: Seq<char>, i: int)
    requires
        0 <= i <= s.len(),
        forall|k: int| 0 <= k < i ==> is_space(s[k]),
        i == s.len() || !is_space(s[i]),
    ensures
        spec_trim_front(s) == s.skip(i),
    decreases s.len(),
{
    if s.len() > 0 && is_space(s[0]) {
        lemma_trim_front_is(s.drop_first(), i - 1);
        assert(s.drop_first().skip(i - 1) =~= s.skip(i));
    } else {
        assert(s.skip(0) =~= s);
    }
}

proof fn lemma_trim_back_is(s: Seq<char>, j: int)
    requires
        0 <= j <= s.len(),
        forall|k: int| j <= k < s.len() ==> is_space(s[k]),
        j == 0 || !is_space(s[j - 1]),
    ensures
        spec_trim_back(s) == s.take(j),
    decreases s.len(),
{
    if s.len() > 0 && is_space(s[s.len() - 1]) {
        lemma_trim_back_is(s.drop_last(), j);
        assert(s.drop_last().take(j) =~= s.take(j));
    } else {
        assert(s.take(s.len() as int) =~= s);
    }
}

/// Removes leading and trailing whitespace from a character buffer.
pub fn trim_chars(buffer: &Vec<char>) -> (t: Vec<char>)
    ensures
        t@ == spec_trim(buffer@),
{
    let n = buffer.len();
    let mut start: usize = 0;
    while start < n && space_char(buffer[start])
        invariant
            n == buffer@.len(),
            start <= n,
            forall|k: int| 0 <= k < start ==> is_space(buffer@[k]),
        decreases n - start,
    {
        start = start + 1;
    }
    proof {
        lemma_trim_front_is(buffer@, start as int);
    }
    let mut end: usize = n;
    while end > start && space_char(buffer[end - 1])
        invariant
            n == buffer@.len(),
            start <= end <= n,
            forall|k: int| end <= k < n ==> is_space(buffer@[k]),
        decreases end,
    {
        end = end - 1;
    }
    proof {
        let f = buffer@.skip(start as int);
        assert forall|k: int| end - start <= k < f.len() implies is_space(#[trigger] f[k]) by {
            assert(f[k] == buffer@[k + start]);
        }
        if end > start {
            assert(f[end - start - 1] == buffer@[end - 1]);
        }
        lemma_trim_back_is(f, end - start);
    }
    let mut t: Vec<char> = Vec::new();
    let mut i = start;
    while i < end
        invariant
            n == buffer@.len(),
            start <= i <= end <= n,
            t@ == buffer@.subrange(start as int, i as int),
        decreases end - i,
    {
        t.push(buffer[i]);
        assert(t@ =~= buffer@.subrange(start as int, i + 1 as int));
        i = i + 1;
    }
    assert(t@ =~= buffer@.skip(start as int).take(end - start as int));
    t
}

// ---------------------------------------------------------------------
// Executable scan steps
// ---------------------------------------------------------------------

/// Scans one bare word: leading whitespace, the word, and — when the
/// word is not glued to a quote or escape — the whitespace after it.
pub fn parse_native(buffer: &Vec<char>, start_pos: usize) -> (r: (bool, Vec<char>, usize))
    requires
        start_pos < buffer@.len(),
    ensures
        (({
            let (finish, tok, num) = spec_parse_native(buffer@.skip(start_pos as int));
            r.0 == finish && r.1@ == tok && r.2 == num && r.2 <= buffer@.len() - start_pos
        })),
{
    let ghost s = buffer@.skip(start_pos as int);
    let n = buffer.len();
    let mut token_start_pos = start_pos;
    while token_start_pos < n && space_char(buffer[token_start_pos])
        invariant
            n == buffer@.len(),
            start_pos <= token_start_pos <= n,
            forall|k: int| start_pos <= k < token_start_pos ==> is_space(buffer@[k]),
        decreases n - token_start_pos,
    {
        token_start_pos = token_start_pos + 1;
    }
    proof {
        assert forall|k: int| 0 <= k < token_start_pos - start_pos implies is_space(s[k]) by {
            assert(s[k] == buffer@[k + start_pos]);
        }
        lemma_count_spaces_is(s, token_start_pos - start_pos);
    }
    let ghost a = token_start_pos - start_pos;

    let mut token_end_pos = token_start_pos;
    while token_end_pos < n && !space_char(buffer[token_end_pos]) && !quote_or_escape_char(
        buffer[token_end_pos],
    ) && !separator_char(buffer[token_end_pos])
        invariant
            n == buffer@.len(),
            token_start_pos <= token_end_pos <= n,
            forall|k: int| token_start_pos <= k < token_end_pos ==> is_word_char(buffer@[k]),
        decreases n - token_end_pos,
    {
        token_end_pos = token_end_pos + 1;
    }
    proof {
        assert forall|k: int| 0 <= k < token_end_pos - token_start_pos implies is_word_char(
            s.skip(a)[k],
        ) by {
            assert(s.skip(a)[k] == buffer@[k + token_start_pos]);
        }
        if token_end_pos < n {
            assert(s.skip(a)[token_end_pos - token_start_pos] == buffer@[token_end_pos as int]);
        }
        lemma_word_len_is(s.skip(a), token_end_pos - token_start_pos);
    }
    let ghost w = token_end_pos - token_start_pos;

    let mut token: Vec<char> = Vec::new();
    let mut i = token_start_pos;
    while i < token_end_pos
        invariant
            n == buffer@.len(),
            token_start_pos <= i <= token_end_pos <= n,
            token@ == buffer@.subrange(token_start_pos as int, i as int),
        decreases token_end_pos - i,
    {
        token.push(buffer[i]);
        assert(token@ =~= buffer@.subrange(token_start_pos as int, i + 1 as int));
        i = i + 1;
    }
    assert(token@ =~= s.subrange(a, a + w));

    if token_end_pos < n && quote_or_escape_char(buffer[token_end_pos]) {
        assert(s[a + w] == buffer@[token_end_pos as int]);
        (false, token, token_end_pos - start_pos)
    } else {
        let mut end_pos = token_end_pos;
        while end_pos < n && space_char(buffer[end_pos])
            invariant
                n == buffer@.len(),
                token_end_pos <= end_pos <= n,
                forall|k: int| token_end_pos <= k < end_pos ==> is_space(buffer@[k]),
            decreases n - end_pos,
        {
            end_pos = end_pos + 1;
        }
        proof {
            if token_end_pos < n {
                assert(s[a + w] == buffer@[token_end_pos as int]);
            }
            assert forall|k: int| 0 <= k < end_pos - token_end_pos implies is_space(
                #[trigger] s.skip(a + w)[k],
            ) by {
                assert(s.skip(a + w)[k] == buffer@[k + token_end_pos]);
            }
            if end_pos < n {
                assert(s.skip(a + w)[end_pos - token_end_pos] == buffer@[end_pos as int]);
            }
            lemma_count_spaces_is(s.skip(a + w), end_pos - token_end_pos);
        }
        (true, token, end_pos - start_pos)
    }
}

/// Scans one single-quoted region starting at `start_pos` (which holds
/// the opening quote).
pub fn parse_single_quote(buffer: &Vec<char>, start_pos: usize) -> (r: (bool, Vec<char>, usize))
    requires
        start_pos < buffer@.len(),
        buffer@[start_pos as int] == '\'',
    ensures
        (({
            let (finish, tok, num) = spec_parse_single_quote(buffer@.skip(start_pos as int));
            r.0 == finish && r.1@ == tok && r.2 == num && 1 <= r.2 <= buffer@.len() - start_pos
        })),
{
    let ghost s = buffer@.skip(start_pos as int);
    let n = buffer.len();
    let mut end_pos = start_pos + 1;
    while end_pos < n && buffer[end_pos] != '\''
        invariant
            n == buffer@.len(),
            start_pos + 1 <= end_pos <= n,
            forall|k: int| start_pos + 1 <= k < end_pos ==> buffer@[k] != '\'',
        decreases n - end_pos,
    {
        end_pos = end_pos + 1;
    }
    proof {
        assert forall|k: int| 0 <= k < end_pos - start_pos - 1 implies s.skip(1)[k] != '\'' by {
            assert(s.skip(1)[k] == buffer@[k + start_pos + 1]);
        }
        if end_pos < n {
            assert(s.skip(1)[end_pos - start_pos - 1] == buffer@[end_pos as int]);
        }
        lemma_dist_to_char_is(s.skip(1), '\'', end_pos - start_pos - 1);
    }

    let mut token: Vec<char> = Vec::new();
    let mut i = start_pos + 1;
    while i < end_pos
        invariant
            n == buffer@.len(),
            start_pos + 1 <= i <= end_pos <= n,
            token@ == buffer@.subrange(start_pos + 1 as int, i as int),
        decreases end_pos - i,
    {
        token.push(buffer[i]);
        assert(token@ =~= buffer@.subrange(start_pos + 1 as int, i + 1 as int));
        i = i + 1;
    }
    assert(token@ =~= s.subrange(1, end_pos - start_pos));

    if end_pos < n {
        let finish = end_pos + 1 >= n || space_char(buffer[end_pos + 1]);
        proof {
            if end_pos + 1 < n {
                assert(s[end_pos - start_pos + 1] == buffer@[end_pos + 1 as int]);
            }
        }
        (finish, token, end_pos - start_pos + 1)
    } else {
        (false, token, end_pos - start_pos)
    }
}

/// Scans one backslash escape starting at `start_pos`.
pub fn parse_backslash(buffer: &Vec<char>, start_pos: usize, in_double_quote: bool) -> (r: (
    bool,
    Vec<char>,
    usize,
))
    requires
        start_pos < buffer@.len(),
        buffer@[start_pos as int] == '\\',
    ensures
        (({
            let (finish, tok, num) = spec_parse_backslash(
                buffer@.skip(start_pos as int),
                in_double_quote,
            );
            r.0 == finish && r.1@ == tok && r.2 == num && 1 <= r.2 <= buffer@.len() - start_pos
        })),
{
    let ghost s = buffer@.skip(start_pos as int);
    let n = buffer.len();
    if start_pos + 1 >= n {
        let mut token: Vec<char> = Vec::new();
        token.push('\\');
        assert(token@ =~= seq!['\\']);
        return (true, token, 1);
    }
    let escape_char = buffer[start_pos + 1];
    assert(s[1] == buffer@[start_pos + 1 as int]);
    let mut token: Vec<char> = Vec::new();
    if escape_char == '\n' {
        // an escaped newline contributes nothing
    } else if in_double_quote {
        if escape_char == '\\' {
            token.push('\\');
        } else if escape_char == '"' {
            token.push('"');
        } else {
            token.push('\\');
            token.push(escape_char);
        }
    } else {
        token.push(escape_char);
    }
    proof {
        let expect = if in_double_quote {
            escape_in_dquote(s[1])
        } else {
            escape_plain(s[1])
        };
        assert(token@ =~= expect);
    }
    let finish = start_pos + 2 >= n || (space_char(buffer[start_pos + 2]) && !in_double_quote);
    proof {
        if start_pos + 2 < n {
            assert(s[2] == buffer@[start_pos + 2 as int]);
        }
    }
    (finish, token, 2)
}

/// Scans one double-quoted region starting at `start_pos` (which holds
/// the opening quote).  Backslash escapes inside the region are
/// resolved as in [`escape_in_dquote`].
pub fn parse_double_quote(buffer: &Vec<char>, start_pos: usize) -> (r: (bool, Vec<char>, usize))
    requires
        start_pos < buffer@.len(),
        buffer@[start_pos as int] == '"',
    ensures
        (({
            let (finish, tok, num) = spec_parse_double_quote(buffer@.skip(start_pos as int));
            r.0 == finish && r.1@ == tok && r.2 == num && 1 <= r.2 <= buffer@.len() - start_pos
        })),
{
    let ghost s = buffer@.skip(start_pos as int);
    let ghost s1 = s.skip(1);
    let n = buffer.len();
    let mut token: Vec<char> = Vec::new();
    let mut end_pos = start_pos + 1;
    assert(s1.skip(0) =~= s1);
    while end_pos < n && buffer[end_pos] != '"'
        invariant
            n == buffer@.len(),
            start_pos + 1 <= end_pos <= n,
            s == buffer@.skip(start_pos as int),
            s1 == s.skip(1),
            buffer@[start_pos as int] == '"',
            spec_dquote_body(s1).0 == token@ + spec_dquote_body(
                s1.skip(end_pos - start_pos - 1),
            ).0,
            spec_dquote_body(s1).1 == (end_pos - start_pos - 1) + spec_dquote_body(
                s1.skip(end_pos - start_pos - 1),
            ).1,
        decreases n - end_pos,
    {
        let ghost rem = s1.skip(end_pos - start_pos - 1);
        assert(rem[0] == buffer@[end_pos as int]);
        if buffer[end_pos] == '\\' {
            if end_pos + 1 < n {
                let escape_char = buffer[end_pos + 1];
                assert(rem[1] == buffer@[end_pos + 1 as int]);
                let ghost token_old = token@;
                if escape_char == '\n' {
                } else if escape_char == '\\' {
                    token.push('\\');
                } else if escape_char == '"' {
                    token.push('"');
                } else {
                    token.push('\\');
                    token.push(escape_char);
                }
                assert(token@ =~= token_old + escape_in_dquote(rem[1]));
                assert(rem.skip(2) =~= s1.skip(end_pos + 1 - start_pos));
                end_pos = end_pos + 2;
            } else {
                let ghost token_old = token@;
                token.push('\\');
                assert(rem.len() == 1);
                assert(token@ =~= token_old + seq!['\\']);
                assert(s1.skip(end_pos - start_pos) =~= Seq::<char>::empty());
                end_pos = end_pos + 1;
            }
        } else {
            let ghost token_old = token@;
            token.push(buffer[end_pos]);
            assert(token@ =~= token_old + seq![rem[0]]);
            assert(rem.skip(1) =~= s1.skip(end_pos - start_pos));
            end_pos = end_pos + 1;
        }
    }
    proof {
        let rem = s1.skip(end_pos - start_pos - 1);
        if end_pos < n {
            assert(rem[0] == buffer@[end_pos as int]);
            assert(spec_dquote_body(rem).0 =~= Seq::<char>::empty());
        } else {
            assert(rem =~= Seq::<char>::empty());
        }
        assert(spec_dquote_body(s1).0 =~= token@);
        assert(spec_dquote_body(s1).1 == end_pos - start_pos - 1);
    }

    if end_pos < n {
        let finish = end_pos + 1 >= n || space_char(buffer[end_pos + 1]);
        proof {
            if end_pos + 1 < n {
                assert(s[end_pos - start_pos + 1] == buffer@[end_pos + 1 as int]);
            }
        }
        (finish, token, end_pos - start_pos + 1)
    } else {
        (false, token, end_pos - start_pos)
    }
}

// ---------------------------------------------------------------------
// The tokenizer
// ---------------------------------------------------------------------

/// Splits one input line into word tokens and control tokens, following
/// the quoting and escaping rules of [`spec_tokenize`].
pub fn tokenize(input: &str) -> (r: Vec<String>)
    ensures
        token_views(r@) == spec_tokenize(input@),
{
    let chars = str_to_chars(input);
    let buffer = trim_chars(&chars);
    let ghost t = buffer@;

    let mut current_pos: usize = 0;
    let mut new_token: Vec<char> = Vec::new();
    let mut cmd_vec: Vec<String> = Vec::new();
    proof {
        assert(t.skip(0) =~= t);
        assert(token_views(cmd_vec@) =~= Seq::<Seq<char>>::empty());
    }
    while current_pos < buffer.len()
        invariant
            t == buffer@,
            current_pos <= t.len(),
            spec_tokenize_rec(t, Seq::empty(), Seq::empty()) == spec_tokenize_rec(
                t.skip(current_pos as int),
                new_token@,
                token_views(cmd_vec@),
            ),
        decreases t.len() - current_pos,
    {
        let ghost rem = t.skip(current_pos as int);
        let ghost cur0 = new_token@;
        let ghost acc0 = token_views(cmd_vec@);
        assert(rem[0] == t[current_pos as int]);
        let c = buffer[current_pos];

        if separator_char(c) {
            if new_token.len() > 0 {
                let done = chars_to_string(&new_token);
                proof {
                    assert(token_views(cmd_vec@.push(done)) =~~= token_views(cmd_vec@).push(
                        new_token@,
                    ));
                }
                cmd_vec.push(done);
                new_token = Vec::new();
            }
            let mut sep: Vec<char> = Vec::new();
            sep.push(c);
            let sep_string = chars_to_string(&sep);
            proof {
                assert(sep_string@ =~= seq![c]);
                assert(token_views(cmd_vec@.push(sep_string)) =~~= token_views(cmd_vec@).push(
                    seq![c],
                ));
                assert(rem.skip(1) =~= t.skip(current_pos + 1 as int));
            }
            cmd_vec.push(sep_string);
            current_pos = current_pos + 1;
            proof {
                reveal_with_fuel(spec_tokenize_rec, 2);
                let acc1 = if cur0.len() > 0 {
                    acc0.push(cur0)
                } else {
                    acc0
                };
                assert(spec_tokenize_rec(rem, cur0, acc0) == spec_tokenize_rec(
                    rem.skip(1),
                    Seq::empty(),
                    acc1.push(seq![rem[0]]),
                ));
            }
        } else {
            let (finish, mut part, num) = if c == '\'' {
                parse_single_quote(&buffer, current_pos)
            } else if c == '"' {
                parse_double_quote(&buffer, current_pos)
            } else if c == '\\' {
                parse_backslash(&buffer, current_pos, false)
            } else {
                parse_native(&buffer, current_pos)
            };
            let ghost part0 = part@;
            let step: usize = if num < 1 {
                1
            } else {
                num
            };
            proof {
                assert(rem.skip(step as int) =~= t.skip(current_pos + step as int));
            }
            new_token.append(&mut part);
            if finish {
                if new_token.len() > 0 {
                    let done = chars_to_string(&new_token);
                    proof {
                        assert(token_views(cmd_vec@.push(done)) =~~= token_views(cmd_vec@).push(
                            new_token@,
                        ));
                    }
                    cmd_vec.push(done);
                    new_token = Vec::new();
                }
            }
            current_pos = current_pos + step;
            proof {
                reveal_with_fuel(spec_tokenize_rec, 2);
                let c0 = rem[0];
                let stuple = if c0 == '\'' {
                    spec_parse_single_quote(rem)
                } else if c0 == '"' {
                    spec_parse_double_quote(rem)
                } else if c0 == '\\' {
                    spec_parse_backslash(rem, false)
                } else {
                    spec_parse_native(rem)
                };
                let snum = stuple.2;
                let sstep = if snum < 1 {
                    1
                } else if snum > rem.len() {
                    rem.len() as int
                } else {
                    snum
                };
                assert(sstep == step as int);
                let cur1 = cur0 + part0;
                if stuple.0 {
                    let acc1 = if cur1.len() > 0 {
                        acc0.push(cur1)
                    } else {
                        acc0
                    };
                    assert(spec_tokenize_rec(rem, cur0, acc0) == spec_tokenize_rec(
                        rem.skip(sstep),
                        Seq::empty(),
                        acc1,
                    ));
                } else {
                    assert(spec_tokenize_rec(rem, cur0, acc0) == spec_tokenize_rec(
                        rem.skip(sstep),
                        cur1,
                        acc0,
                    ));
                }
            }
        }
    }
    proof {
        assert(t.skip(current_pos as int) =~= Seq::<char>::empty());
    }
    if new_token.len() > 0 {
        let done = chars_to_string(&new_token);
        proof {
            assert(token_views(cmd_vec@.push(done)) =~~= token_views(cmd_vec@).push(new_token@));
        }
        cmd_vec.push(done);
    }
    cmd_vec
}

// ---------------------------------------------------------------------
// Round trip: joining plain tokens and re-tokenizing is the identity
// ---------------------------------------------------------------------

/// A token that re-serialises unchanged: nonempty, and free of
/// whitespace, quotes, escapes and separators.
pub open spec fn plain_word(w: Seq<char>) -> bool {
    w.len() > 0 && forall|i: int| 0 <= i < w.len() ==> is_word_char(#[trigger] w[i])
}

/// The tokens joined with single spaces.
pub open spec fn join_words(ws: Seq<Seq<char>>) -> Seq<char>
    decreases ws.len(),
{
    if ws.len() == 0 {
        Seq::empty()
    } else if ws.len() == 1 {
        ws[0]
    } else {
        ws[0] + seq![' '] + join_words(ws.drop_first())
    }
}

/// Appending one token to a joined sequence appends a space and the
/// token.
pub proof fn lemma_join_words_push(ws: Seq<Seq<char>>, w: Seq<char>)
    ensures
        join_words(ws.push(w)) == if ws.len() == 0 {
            w
        } else {
            join_words(ws) + seq![' '] + w
        },
    decreases ws.len(),
{
    let t = ws.push(w);
    if ws.len() == 0 {
        assert(t.len() == 1);
        assert(t[0] == w);
    } else {
        assert(t.len() >= 2);
        assert(t[0] == ws[0]);
        assert(t.drop_first() =~= ws.drop_first().push(w));
        lemma_join_words_push(ws.drop_first(), w);
        if ws.len() == 1 {
            assert(join_words(ws) == ws[0]);
            assert(join_words(t.drop_first()) == w);
        } else {
            assert(ws[0] + seq![' '] + (join_words(ws.drop_first()) + seq![' '] + w) =~= (ws[0]
                + seq![' '] + join_words(ws.drop_first())) + seq![' '] + w);
        }
    }
}

proof fn lemma_join_first(ws: Seq<Seq<char>>)
    requires
        ws.len() > 0,
        forall|i: int| 0 <= i < ws.len() ==> plain_word(#[trigger] ws[i]),
    ensures
        join_words(ws).len() > 0,
        join_words(ws)[0] == ws[0][0],
        is_word_char(join_words(ws)[0]),
{
    assert(plain_word(ws[0]));
    assert(ws[0][0] == join_words(ws)[0]);
}

proof fn lemma_join_last(ws: Seq<Seq<char>>)
    requires
        ws.len() > 0,
        forall|i: int| 0 <= i < ws.len() ==> plain_word(#[trigger] ws[i]),
    ensures
        join_words(ws).len() > 0,
        join_words(ws).last() == ws.last().last(),
        is_word_char(join_words(ws).last()),
    decreases ws.len(),
{
    if ws.len() == 1 {
        assert(plain_word(ws[0]));
        assert(is_word_char(ws[0][ws[0].len() - 1]));
    } else {
        let rest = ws.drop_first();
        assert forall|i: int| 0 <= i < rest.len() implies plain_word(#[trigger] rest[i]) by {
            assert(rest[i] == ws[i + 1]);
        }
        lemma_join_last(rest);
        let b = ws[0] + seq![' '] + join_words(rest);
        assert(b.last() == join_words(rest).last());
        assert(ws.last() == rest.last());
    }
}

proof fn lemma_tokenize_rec_join(ws: Seq<Seq<char>>, acc: Seq<Seq<char>>)
    requires
        forall|i: int| 0 <= i < ws.len() ==> plain_word(#[trigger] ws[i]),
    ensures
        spec_tokenize_rec(join_words(ws), Seq::empty(), acc) == acc + ws,
    decreases ws.len(),
{
    let b = join_words(ws);
    if ws.len() == 0 {
        assert(b.len() == 0);
        assert(acc + ws =~~= acc);
    } else {
        reveal_with_fuel(spec_tokenize_rec, 2);
        let w0 = ws[0];
        assert(plain_word(w0));
        let rest = ws.drop_first();
        assert forall|i: int| 0 <= i < rest.len() implies plain_word(#[trigger] rest[i]) by {
            assert(rest[i] == ws[i + 1]);
        }
        assert(b[0] == w0[0]);
        assert(is_word_char(b[0]));
        // the scan takes the bare-word step
        lemma_count_spaces_is(b, 0);
        assert(b.skip(0) =~= b);
        assert forall|k: int| 0 <= k < w0.len() implies is_word_char(#[trigger] b[k]) by {
            assert(b[k] == w0[k]);
        }
        if ws.len() == 1 {
            lemma_word_len_is(b, w0.len() as int);
            assert(b.subrange(0, w0.len() as int) =~= w0);
            let s2 = b.skip(w0.len() as int);
            assert(s2 =~= Seq::<char>::empty());
            lemma_count_spaces_is(s2, 0);
            // one step consumes everything and pushes the word
            assert(spec_tokenize_rec(b, Seq::empty(), acc) == spec_tokenize_rec(
                Seq::empty(),
                Seq::empty(),
                acc.push(w0),
            ));
            assert(Seq::empty() + w0 =~= w0);
            assert(acc + ws =~~= acc.push(w0));
        } else {
            assert(b == w0 + seq![' '] + join_words(rest));
            assert(b[w0.len() as int] == ' ');
            lemma_word_len_is(b, w0.len() as int);
            assert(b.subrange(0, w0.len() as int) =~= w0);
            let s2 = b.skip(w0.len() as int);
            lemma_join_first(rest);
            assert(s2[0] == ' ');
            assert(s2[1] == join_words(rest)[0]);
            lemma_count_spaces_is(s2, 1);
            let num = w0.len() + 1;
            assert(b.skip(num as int) =~= join_words(rest));
            assert(Seq::empty() + w0 =~= w0);
            assert(spec_tokenize_rec(b, Seq::empty(), acc) == spec_tokenize_rec(
                join_words(rest),
                Seq::empty(),
                acc.push(w0),
            ));
            lemma_tokenize_rec_join(rest, acc.push(w0));
            assert(acc.push(w0) + rest =~~= acc + ws);
        }
    }
}

/// Tokenizing is the identity on a re-serialised token sequence: when
/// every token is a nonempty plain word (no whitespace, quote, escape
/// or separator characters), joining the tokens with single spaces and
/// tokenizing again yields exactly the same token sequence.
pub proof fn lemma_tokenize_round_trip(ws: Seq<Seq<char>>)
    requires
        forall|i: int| 0 <= i < ws.len() ==> plain_word(#[trigger] ws[i]),
    ensures
        spec_tokenize(join_words(ws)) == ws,
{
    let b = join_words(ws);
    if ws.len() == 0 {
        assert(b.len() == 0);
        assert(spec_trim_front(b) == b);
        assert(spec_trim_back(b) == b);
        lemma_tokenize_rec_join(ws, Seq::empty());
        assert(Seq::<Seq<char>>::empty() + ws =~~= ws);
    } else {
        lemma_join_first(ws);
        lemma_join_last(ws);
        assert(!is_space(b[0]));
        assert(!is_space(b[b.len() - 1]));
        assert(spec_trim_front(b) == b);
        assert(spec_trim_back(b) == b);
        lemma_tokenize_rec_join(ws, Seq::empty());
        assert(Seq::<Seq<char>>::empty() + ws =~~= ws);
    }
}

} // verus!
