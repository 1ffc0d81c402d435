//! Source scanning helpers: a small PHP lexer that tells code from string
//! literals and comments, the brace matcher built on it, and the balanced
//! semicolon finder.

use vstd::prelude::*;

use crate::text::{lines_of, pos_of, strip_cr, lemma_pos_of_bound};

verus! {

/// Where the lexer stands between two characters.
#[derive(Debug, Clone, Copy, PartialEq, Eq, Structural)]
pub enum Mode {
    /// Ordinary code: braces, brackets and semicolons count here.
    Code,
    /// Inside a `//` or `#` comment, up to the end of the line.
    LineComment,
    /// Just read the `/` that opens a block comment.
    BlockOpen,
    /// Inside a `/* ... */` comment.
    Block,
    /// Just read the `*` that closes a block comment.
    BlockClose,
    /// Inside a single-quoted string.
    Single,
    /// Inside a single-quoted string, right after a backslash.
    SingleEsc,
    /// Inside a double-quoted string.
    Double,
    /// Inside a double-quoted string, right after a backslash.
    DoubleEsc,
}

/// The lexer's mode after reading `c` in mode `m`, where `next` is the
/// character after `c` (if any).
pub open spec fn lex_next(m: Mode, c: char, next: Option<char>) -> Mode {
    match m {
        Mode::Code => {
            if c == '\'' {
                Mode::Single
            } else if c == '"' {
                Mode::Double
            } else if c == '#' && next != Some('[') {
                Mode::LineComment
            } else if c == '/' && next == Some('/') {
                Mode::LineComment
            } else if c == '/' && next == Some('*') {
                Mode::BlockOpen
            } else {
                Mode::Code
            }
        },
        Mode::LineComment => {
            if c == '\n' {
                Mode::Code
            } else {
                Mode::LineComment
            }
        },
        Mode::BlockOpen => Mode::Block,
        Mode::Block => {
            if c == '*' && next == Some('/') {
                Mode::BlockClose
            } else {
                Mode::Block
            }
        },
        Mode::BlockClose => Mode::Code,
        Mode::Single => {
            if c == '\\' {
                Mode::SingleEsc
            } else if c == '\'' {
                Mode::Code
            } else {
                Mode::Single
            }
        },
        Mode::SingleEsc => Mode::Single,
        Mode::Double => {
            if c == '\\' {
                Mode::DoubleEsc
            } else if c == '"' {
                Mode::Code
            } else {
                Mode::Double
            }
        },
        Mode::DoubleEsc => Mode::Double,
    }
}

/// The mode at the start of the next line: a line comment ends with its
/// line, everything else carries over.
pub open spec fn mode_after_line(m: Mode) -> Mode {
    if m == Mode::LineComment {
        Mode::Code
    } else {
        m
    }
}

/// The character at `i` of `s` (if any).
pub open spec fn char_at(s: Seq<char>, i: int) -> Option<char> {
    if 0 <= i < s.len() {
        Some(s[i])
    } else {
        None
    }
}

/// One line scanned for the brace that closes the enclosing block: the
/// result says whether a `}` in code brought the depth below zero on this
/// line, and otherwise gives the mode and depth at the end of the line.
pub struct LineScan {
    pub closed: bool,
    pub mode: Mode,
    pub depth: nat,
}

/// Scans `line` from `i` in mode `m` at brace depth `depth`.
pub open spec fn scan_line(line: Seq<char>, i: int, m: Mode, depth: nat) -> LineScan
    decreases line.len() - i,
{
    if i < 0 || i >= line.len() {
        LineScan { closed: false, mode: mode_after_line(m), depth }
    } else {
        let c = line[i];
        if m == Mode::Code && c == '}' && depth == 0 {
            LineScan { closed: true, mode: m, depth }
        } else {
            let d: nat = if m == Mode::Code && c == '{' {
                depth + 1
            } else if m == Mode::Code && c == '}' {
                (depth - 1) as nat
            } else {
                depth
            };
            scan_line(line, i + 1, lex_next(m, c, char_at(line, i + 1)), d)
        }
    }
}

/// The first line from `k` on whose code holds a `}` that closes a block
/// opened before line `k` (scanning from mode `m` at depth `depth`).
pub open spec fn close_line_from(lines: Seq<Seq<char>>, k: int, m: Mode, depth: nat) -> Option<
    nat,
>
    decreases lines.len() - k,
{
    if k < 0 || k >= lines.len() {
        None
    } else {
        let r = scan_line(lines[k], 0, m, depth);
        if r.closed {
            Some(k as nat)
        } else {
            close_line_from(lines, k + 1, r.mode, r.depth)
        }
    }
}

/// The line of the `}` that closes the block enclosing line `start`:
/// braces in strings and comments do not count.
pub open spec fn spec_brace_match_line(lines: Seq<Seq<char>>, start: int) -> Option<nat> {
    close_line_from(lines, start, Mode::Code, 0)
}

/// `c` may open a string literal or a comment.
pub open spec fn opens_literal(c: char) -> bool {
    c == '\'' || c == '"' || c == '#' || c == '/'
}

/// No string literal or comment can start on `line`.
pub open spec fn plain_line(line: Seq<char>) -> bool {
    forall|i: int| 0 <= i < line.len() ==> !opens_literal(#[trigger] line[i])
}

/// Plain brace counting on `line` from `i` at depth `depth`, every brace
/// counted: whether a `}` brings the depth below zero, and otherwise the
/// depth at the end of the line.
pub open spec fn count_braces(line: Seq<char>, i: int, depth: nat) -> (bool, nat)
    decreases line.len() - i,
{
    if i < 0 || i >= line.len() {
        (false, depth)
    } else if line[i] == '}' && depth == 0 {
        (true, depth)
    } else if line[i] == '{' {
        count_braces(line, i + 1, depth + 1)
    } else if line[i] == '}' {
        count_braces(line, i + 1, (depth - 1) as nat)
    } else {
        count_braces(line, i + 1, depth)
    }
}

/// The first line from `k` on where the running brace depth, counted from
/// `depth`, goes below zero.
pub open spec fn count_close_from(lines: Seq<Seq<char>>, k: int, depth: nat) -> Option<nat>
    decreases lines.len() - k,
{
    if k < 0 || k >= lines.len() {
        None
    } else {
        let r = count_braces(lines[k], 0, depth);
        if r.0 {
            Some(k as nat)
        } else {
            count_close_from(lines, k + 1, r.1)
        }
    }
}

/// Total number of characters in `lines`.
pub open spec fn total_len(lines: Seq<Seq<char>>) -> nat
    decreases lines.len(),
{
    if lines.len() == 0 {
        0
    } else {
        total_len(lines.drop_last()) + lines.last().len()
    }
}

/// `c` opens a bracket pair.
pub open spec fn is_opener(c: char) -> bool {
    c == '(' || c == '[' || c == '{'
}

/// `c` closes a bracket pair.
pub open spec fn is_closer(c: char) -> bool {
    c == ')' || c == ']' || c == '}'
}

/// The index of the first `;` in code at bracket depth zero, scanning `s`
/// from `i` in mode `m` at depth `depth`; `None` when the text ends first
/// or a closing bracket at depth zero ends the enclosing construct.
pub open spec fn semi_scan(s: Seq<char>, i: int, m: Mode, depth: nat) -> Option<nat>
    decreases s.len() - i,
{
    if i < 0 || i >= s.len() {
        None
    } else {
        let c = s[i];
        if m == Mode::Code && c == ';' && depth == 0 {
            Some(i as nat)
        } else if m == Mode::Code && is_closer(c) && depth == 0 {
            None
        } else {
            let d: nat = if m == Mode::Code && is_opener(c) {
                depth + 1
            } else if m == Mode::Code && is_closer(c) {
                (depth - 1) as nat
            } else {
                depth
            };
            semi_scan(s, i + 1, lex_next(m, c, char_at(s, i + 1)), d)
        }
    }
}

/// An optional index as a machine integer.
pub open spec fn opt_usize(o: Option<nat>) -> Option<usize> {
    match o {
        Some(n) => Some(n as usize),
        None => None,
    }
}

// ── Lemmas ──────────────────────────────────────────────────────────────────

proof fn lemma_total_len_take(lines: Seq<Seq<char>>, k: int)
    requires
        0 <= k < lines.len(),
    ensures
        total_len(lines.take(k + 1)) == total_len(lines.take(k)) + lines[k].len(),
{
    assert(lines.take(k + 1).drop_last() =~= lines.take(k));
}

proof fn lemma_total_len_mono(lines: Seq<Seq<char>>, k: int)
    requires
        0 <= k <= lines.len(),
    ensures
        total_len(lines.take(k)) <= total_len(lines),
    decreases lines.len() - k,
{
    if k < lines.len() {
        lemma_total_len_take(lines, k);
        lemma_total_len_mono(lines, k + 1);
    } else {
        assert(lines.take(k) =~= lines);
    }
}

/// A semicolon found by `semi_scan` lies inside the text.
pub proof fn lemma_semi_scan_bound(s: Seq<char>, i: int, m: Mode, depth: nat)
    ensures
        semi_scan(s, i, m, depth) matches Some(k) ==> i <= k < s.len(),
    decreases s.len() - i,
{
    if 0 <= i < s.len() {
        let c = s[i];
        if !(m == Mode::Code && c == ';' && depth == 0) && !(m == Mode::Code && is_closer(c)
            && depth == 0) {
            let d: nat = if m == Mode::Code && is_opener(c) {
                depth + 1
            } else if m == Mode::Code && is_closer(c) {
                (depth - 1) as nat
            } else {
                depth
            };
            lemma_semi_scan_bound(s, i + 1, lex_next(m, c, char_at(s, i + 1)), d);
        }
    }
}

proof fn lemma_total_len_concat(a: Seq<Seq<char>>, b: Seq<Seq<char>>)
    ensures
        total_len(a + b) == total_len(a) + total_len(b),
    decreases b.len(),
{
    if b.len() > 0 {
        assert((a + b).drop_last() =~= a + b.drop_last());
        lemma_total_len_concat(a, b.drop_last());
    } else {
        assert(a + b =~= a);
    }
}

/// The lines of a text hold no more characters than the text.
pub proof fn lemma_total_len_lines(s: Seq<char>)
    ensures
        total_len(lines_of(s)) <= s.len(),
    decreases s.len(),
{
    if s.len() > 0 {
        let i = pos_of(s, '\n');
        lemma_pos_of_bound(s, '\n');
        assert(total_len(Seq::<Seq<char>>::empty()) == 0);
        if i == s.len() {
            assert(seq![s].drop_last() =~= Seq::<Seq<char>>::empty());
            assert(total_len(seq![s]) == s.len());
        } else {
            let first = strip_cr(s.take(i as int));
            lemma_total_len_lines(s.skip(i + 1 as int));
            lemma_total_len_concat(seq![first], lines_of(s.skip(i + 1 as int)));
            assert(seq![first].drop_last() =~= Seq::<Seq<char>>::empty());
            assert(total_len(seq![first]) == first.len());
            assert(first.len() <= i);
        }
    } else {
        assert(total_len(lines_of(s)) == 0);
    }
}

proof fn lemma_close_line_from_bounds(lines: Seq<Seq<char>>, k: int, m: Mode, depth: nat)
    requires
        0 <= k,
    ensures
        close_line_from(lines, k, m, depth) matches Some(c) ==> k <= c < lines.len(),
    decreases lines.len() - k,
{
    if k < lines.len() {
        let r = scan_line(lines[k], 0, m, depth);
        if !r.closed {
            lemma_close_line_from_bounds(lines, k + 1, r.mode, r.depth);
        }
    }
}

proof fn lemma_scan_plain_line(line: Seq<char>, i: int, depth: nat)
    requires
        0 <= i,
        plain_line(line),
    ensures
        ({
            let r = scan_line(line, i, Mode::Code, depth);
            let p = count_braces(line, i, depth);
            r.closed == p.0 && r.mode == Mode::Code && r.depth == p.1
        }),
    decreases line.len() - i,
{
    if i < line.len() {
        let c = line[i];
        assert(!opens_literal(c));
        if !(c == '}' && depth == 0) {
            let d: nat = if c == '{' {
                depth + 1
            } else if c == '}' {
                (depth - 1) as nat
            } else {
                depth
            };
            assert(lex_next(Mode::Code, c, char_at(line, i + 1)) == Mode::Code);
            lemma_scan_plain_line(line, i + 1, d);
        }
    }
}

/// On lines where no string literal or comment can start, the lexer's
/// close line is the one that plain brace counting finds.
pub proof fn lemma_close_from_plain(lines: Seq<Seq<char>>, k: int, depth: nat)
    requires
        0 <= k,
        forall|j: int| k <= j < lines.len() ==> plain_line(#[trigger] lines[j]),
    ensures
        close_line_from(lines, k, Mode::Code, depth) == count_close_from(lines, k, depth),
    decreases lines.len() - k,
{
    if k < lines.len() {
        lemma_scan_plain_line(lines[k], 0, depth);
        let r = scan_line(lines[k], 0, Mode::Code, depth);
        if !r.closed {
            lemma_close_from_plain(lines, k + 1, r.depth);
        }
    }
}

/// The closing line, when there is one, lies between the start line and
/// the last line.
pub proof fn lemma_brace_match_bounds(lines: Seq<Seq<char>>, start: int)
    requires
        0 <= start,
    ensures
        spec_brace_match_line(lines, start) matches Some(c) ==> start <= c < lines.len(),
{
    lemma_close_line_from_bounds(lines, start, Mode::Code, 0);
}

/// Inside a double-quoted string every character but `"` and `\` is
/// string text: the lexer stays in the string.
pub proof fn lemma_double_quoted_stays(c: char, next: Option<char>)
    requires
        c != '"',
        c != '\\',
    ensures
        lex_next(Mode::Double, c, next) == Mode::Double,
{
}

/// Inside a single-quoted string every character but `'` and `\` is
/// string text; inside a line comment everything up to the newline is
/// comment text; inside a block comment everything but the `*` of a
/// closing `*/` is comment text.
pub proof fn lemma_literals_hold_their_text(c: char, next: Option<char>)
    ensures
        c != '\'' && c != '\\' ==> lex_next(Mode::Single, c, next) == Mode::Single,
        c != '\n' ==> lex_next(Mode::LineComment, c, next) == Mode::LineComment,
        !(c == '*' && next == Some('/')) ==> lex_next(Mode::Block, c, next) == Mode::Block,
        lex_next(Mode::Single, '\'', next) == Mode::Code,
        lex_next(Mode::Double, '"', next) == Mode::Code,
        lex_next(Mode::Code, '\'', next) == Mode::Single,
        lex_next(Mode::Code, '"', next) == Mode::Double,
{
}

/// In code, a character that opens no literal or comment and is no brace
/// leaves the scan of a line unchanged: the lexer stays in code at the
/// same depth.
pub proof fn lemma_scan_code_run(line: Seq<char>, i: int, j: int, depth: nat)
    requires
        0 <= i <= j <= line.len(),
        forall|k: int|
            i <= k < j ==> !opens_literal(#[trigger] line[k]) && line[k] != '{' && line[k] != '}',
    ensures
        scan_line(line, i, Mode::Code, depth) == scan_line(line, j, Mode::Code, depth),
    decreases j - i,
{
    if i < j {
        let c = line[i];
        assert(!opens_literal(c) && c != '{' && c != '}');
        assert(lex_next(Mode::Code, c, char_at(line, i + 1)) == Mode::Code);
        lemma_scan_code_run(line, i + 1, j, depth);
    }
}

/// Inside a double-quoted string, characters other than `"` and `\` are
/// string text: no brace among them counts, and the string goes on.
pub proof fn lemma_scan_double_run(line: Seq<char>, i: int, j: int, depth: nat)
    requires
        0 <= i <= j <= line.len(),
        forall|k: int| i <= k < j ==> #[trigger] line[k] != '"' && line[k] != '\\',
    ensures
        scan_line(line, i, Mode::Double, depth) == scan_line(line, j, Mode::Double, depth),
    decreases j - i,
{
    if i < j {
        let c = line[i];
        lemma_double_quoted_stays(c, char_at(line, i + 1));
        lemma_scan_double_run(line, i + 1, j, depth);
    }
}

// ── Executable scanning ─────────────────────────────────────────────────────

/// One step of the lexer.
pub fn lex_step(m: Mode, c: char, next: Option<char>) -> (r: Mode)
    ensures
        r == lex_next(m, c, next),
{
    match m {
        Mode::Code => {
            if c == '\'' {
                Mode::Single
            } else if c == '"' {
                Mode::Double
            } else if c == '#' && next != Some('[') {
                Mode::LineComment
            } else if c == '/' && next == Some('/') {
                Mode::LineComment
            } else if c == '/' && next == Some('*') {
                Mode::BlockOpen
            } else {
                Mode::Code
            }
        },
        Mode::LineComment => {
            if c == '\n' {
                Mode::Code
            } else {
                Mode::LineComment
            }
        },
        Mode::BlockOpen => Mode::Block,
        Mode::Block => {
            if c == '*' && next == Some('/') {
                Mode::BlockClose
            } else {
                Mode::Block
            }
        },
        Mode::BlockClose => Mode::Code,
        Mode::Single => {
            if c == '\\' {
                Mode::SingleEsc
            } else if c == '\'' {
                Mode::Code
            } else {
                Mode::Single
            }
        },
        Mode::SingleEsc => Mode::Single,
        Mode::Double => {
            if c == '\\' {
                Mode::DoubleEsc
            } else if c == '"' {
                Mode::Code
            } else {
                Mode::Double
            }
        },
        Mode::DoubleEsc => Mode::Double,
    }
}

fn next_char(v: &Vec<char>, i: usize) -> (r: Option<char>)
    requires
        i < v@.len(),
    ensures
        r == char_at(v@, i + 1),
{
    if i < v.len() - 1 {
        Some(v[i + 1])
    } else {
        None
    }
}

/// Finds the line of the `}` that closes the block enclosing line `start`,
/// scanning forward with the brace depth starting at zero.
pub fn find_brace_match_line(lines: &Vec<Vec<char>>, start: usize) -> (r: Option<usize>)
    requires
        total_len(lines@.map_values(|l: Vec<char>| l@)) <= usize::MAX,
    ensures
        r == opt_usize(spec_brace_match_line(lines@.map_values(|l: Vec<char>| l@), start as int)),
{
    let ghost ls = lines@.map_values(|l: Vec<char>| l@);
    let mut k: usize = start;
    let mut m = Mode::Code;
    let mut depth: usize = 0;
    let ghost mut seen: nat = 0;
    if k >= lines.len() {
        return None;
    }
    proof {
        lemma_total_len_mono(ls, k as int);
        seen = total_len(ls.take(k as int));
    }
    while k < lines.len()
        invariant
            start <= k <= lines@.len(),
            ls == lines@.map_values(|l: Vec<char>| l@),
            total_len(ls) <= usize::MAX,
            seen <= total_len(ls.take(k as int)),
            depth <= seen,
            spec_brace_match_line(ls, start as int) == close_line_from(ls, k as int, m, depth as nat),
        decreases lines@.len() - k,
    {
        let line = &lines[k];
        assert(line@ == ls[k as int]);
        let ghost m0 = m;
        let ghost d0 = depth as nat;
        let mut i: usize = 0;
        proof {
            lemma_total_len_take(ls, k as int);
            lemma_total_len_mono(ls, k + 1);
        }
        while i < line.len()
            invariant
                i <= line@.len(),
                k < lines@.len(),
                start <= k,
                ls == lines@.map_values(|l: Vec<char>| l@),
                line@ == ls[k as int],
                total_len(ls.take(k + 1)) <= usize::MAX,
                total_len(ls.take(k + 1)) == total_len(ls.take(k as int)) + line@.len(),
                seen <= total_len(ls.take(k as int)),
                depth <= seen + i,
                spec_brace_match_line(ls, start as int) == close_line_from(ls, k as int, m0, d0),
                scan_line(line@, 0, m0, d0) == scan_line(line@, i as int, m, depth as nat),
            decreases line@.len() - i,
        {
            let c = line[i];
            if m == Mode::Code && c == '}' && depth == 0 {
                assert(scan_line(line@, i as int, m, depth as nat).closed);
                assert(close_line_from(ls, k as int, m0, d0) == Some(k as nat));
                return Some(k);
            }
            if m == Mode::Code && c == '{' {
                depth = depth + 1;
            } else if m == Mode::Code && c == '}' {
                depth = depth - 1;
            }
            m = lex_step(m, c, next_char(line, i));
            i = i + 1;
        }
        if m == Mode::LineComment {
            m = Mode::Code;
        }
        proof {
            seen = seen + line@.len();
        }
        k = k + 1;
    }
    None
}

/// The index of the first `;` in code at bracket depth zero in `v`,
/// starting at `from`.
pub fn find_semicolon_balanced(v: &Vec<char>, from: usize) -> (r: Option<usize>)
    ensures
        r == opt_usize(semi_scan(v@, from as int, Mode::Code, 0)),
{
    let mut i: usize = from;
    let mut m = Mode::Code;
    let mut depth: usize = 0;
    while i < v.len()
        invariant
            from <= i,
            depth <= i,
            semi_scan(v@, from as int, Mode::Code, 0) == semi_scan(v@, i as int, m, depth as nat),
        decreases v@.len() - i,
    {
        let c = v[i];
        let is_code = m == Mode::Code;
        if is_code && c == ';' && depth == 0 {
            return Some(i);
        }
        let closer = c == ')' || c == ']' || c == '}';
        if is_code && closer && depth == 0 {
            return None;
        }
        if is_code && (c == '(' || c == '[' || c == '{') {
            depth = depth + 1;
        } else if is_code && closer {
            depth = depth - 1;
        }
        m = lex_step(m, c, next_char(v, i));
        i = i + 1;
    }
    None
}

} // verus!
