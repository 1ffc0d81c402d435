//! "Remove unreachable code" for PHPStan's `deadCode.unreachable`.
//!
//! PHPStan reports one `deadCode.unreachable` diagnostic per block, on the
//! first dead line, but everything after the terminating statement in that
//! block is dead.  The action therefore deletes everything from the start
//! of the diagnostic line up to the start of the line holding the `}` that
//! closes the enclosing block; that `}` and its indentation stay.
//!
//! Offering the action (`collect_remove_unreachable_actions`) only picks
//! the diagnostics under the cursor; the edit is computed when the action
//! is resolved (`resolve_remove_unreachable`).

use vstd::prelude::*;

use crate::code_actions::{parse_url, parsed_url, url_parses, ActionExtra, CodeActionData};
use crate::diagnostics::{offset_to_position, spec_offset_position};
use crate::lsp::{
    ranges_overlap, spec_ranges_overlap, CodeActionKind, Diagnostic, NumberOrString, Position,
    Range, TextEdit,
};
use crate::text::{
    chars_of, is_whitespace, is_ws, lemma_line_start, lemma_lines_concat, lemma_trim_single,
    lemma_ws_prefix, line_start, lines_of, pos_of, position, split_lines, str_eq, sub_vec, trim,
    trimmed, ws_prefix,
};
use crate::util::{
    find_brace_match_line, find_semicolon_balanced, lemma_semi_scan_bound, lemma_total_len_lines,
    char_at, close_line_from, count_close_from, lemma_close_from_plain, lemma_scan_code_run,
    lemma_scan_double_run, lex_next, opens_literal, plain_line, scan_line, semi_scan,
    spec_brace_match_line, Mode,
};

verus! {

/// PHPStan identifier for the "unreachable statement" diagnostic.
pub const UNREACHABLE_ID: &'static str = "deadCode.unreachable";

/// Action kind string for removing unreachable code.
pub const ACTION_KIND: &'static str = "phpstan.removeUnreachable";

/// The message PHPStan gives its `deadCode.unreachable` diagnostics.
pub const UNREACHABLE_MSG: &'static str = "Unreachable statement - code above always terminates.";

/// Title of the action.
pub const ACTION_TITLE: &'static str = "Remove unreachable code";

// ── Specifications ──────────────────────────────────────────────────────────

/// The line of the `}` that closes the block enclosing `diag_line` in
/// `content`; `None` when the line does not exist or no such `}` follows.
pub open spec fn spec_close_line(content: Seq<char>, diag_line: int) -> Option<nat> {
    if 0 <= diag_line < lines_of(content).len() {
        spec_brace_match_line(lines_of(content), diag_line)
    } else {
        None
    }
}

/// `e` deletes everything from the start of `diag_line` to the start of
/// `close_line`.
pub open spec fn is_deletion(e: TextEdit, diag_line: int, close_line: nat) -> bool {
    &&& e.range.start == Position { line: diag_line as u32, character: 0 }
    &&& e.range.end == Position { line: close_line as u32, character: 0 }
    &&& e.new_text@ == Seq::<char>::empty()
}

/// The diagnostic on `diag_line` no longer points at dead code: the line
/// is gone, blank, or holds only a closing `}`.
pub open spec fn spec_stale(content: Seq<char>, diag_line: int) -> bool {
    let lines = lines_of(content);
    ||| diag_line < 0
    ||| diag_line >= lines.len()
    ||| trim(lines[diag_line]).len() == 0
    ||| trim(lines[diag_line]) == seq!['}']
}

/// `content` after a deletion from the start of line `from` to the start
/// of line `to` (the positions `(from, 0)` and `(to, 0)`).
pub open spec fn delete_lines(content: Seq<char>, from: nat, to: nat) -> Seq<char> {
    content.take(line_start(content, from) as int) + content.skip(line_start(content, to) as int)
}

/// `d` is a `deadCode.unreachable` diagnostic with PHPStan's
/// "unreachable statement" message, overlapping `cursor`.
pub open spec fn is_unreachable_hit(d: Diagnostic, cursor: Range) -> bool {
    &&& d.code matches Some(NumberOrString::String(s)) && s@ == UNREACHABLE_ID@
    &&& d.message@ == UNREACHABLE_MSG@
    &&& spec_ranges_overlap(d.range, cursor)
}

/// Indices, in order, of the diagnostics among the first `n` of `diags`
/// that the action applies to.
pub open spec fn hit_indices(diags: Seq<Diagnostic>, cursor: Range, n: int) -> Seq<int>
    decreases n,
{
    if n <= 0 {
        seq![]
    } else if is_unreachable_hit(diags[n - 1], cursor) {
        hit_indices(diags, cursor, n - 1).push(n - 1)
    } else {
        hit_indices(diags, cursor, n - 1)
    }
}

/// A "Remove unreachable code" action offered for a diagnostic under the
/// cursor: a preferred quick fix, resolved later (it carries no edit).
pub struct UnreachableHit {
    pub title: String,
    pub kind: CodeActionKind,
    pub is_preferred: bool,
    /// Index of the diagnostic in the list it was picked from.
    pub index: usize,
    /// The diagnostic's first line: the first dead line.
    pub diagnostic_line: usize,
    /// The payload that resolving the action reads back.
    pub data: CodeActionData,
}

/// `h` is the action offered for diagnostic `d`, at index `i`, in the
/// document `uri` with the cursor at `cursor`: a preferred quick fix with
/// this action's title, whose payload names this action kind, the
/// document, the cursor range and the diagnostic's first line.
pub open spec fn is_action_for(h: UnreachableHit, d: Diagnostic, i: int, uri: Seq<char>, cursor: Range) -> bool {
    &&& h.index == i
    &&& h.diagnostic_line == d.range.start.line as usize
    &&& h.title@ == ACTION_TITLE@
    &&& h.kind == CodeActionKind::QuickFix
    &&& h.is_preferred
    &&& h.data.action_kind@ == ACTION_KIND@
    &&& h.data.uri@ == uri
    &&& h.data.range == cursor
    &&& h.data.extra.diagnostic_line == Some(d.range.start.line as u64)
}

// ── Helpers ─────────────────────────────────────────────────────────────────

/// Builds the edit that removes all code from `diag_line` to the enclosing
/// block's closing `}`: everything from the start of `diag_line` to the
/// start of the `}` line is deleted, the `}` itself stays.
///
/// `None` when the line does not exist or no enclosing `}` is found.
pub fn build_remove_unreachable_block_edit(content: &str, diag_line: usize) -> (r: Option<
    TextEdit,
>)
    ensures
        r is Some <==> spec_close_line(content@, diag_line as int) is Some,
        r matches Some(e) ==> {
            let close = spec_close_line(content@, diag_line as int)->0;
            &&& diag_line <= close < lines_of(content@).len()
            &&& is_deletion(e, diag_line as int, close)
        },
{
    let chars = chars_of(content);
    let lines = split_lines(&chars);
    if diag_line >= lines.len() {
        return None;
    }
    let ghost ls = lines@.map_values(|l: Vec<char>| l@);
    proof {
        assert(ls =~= lines_of(chars@));
        lemma_total_len_lines(chars@);
    }
    match find_brace_match_line(&lines, diag_line) {
        None => None,
        Some(close_line) => {
            proof {
                crate::util::lemma_brace_match_bounds(ls, diag_line as int);
            }
            Some(
                TextEdit {
                    range: Range {
                        start: Position::new(diag_line as u32, 0),
                        end: Position::new(close_line as u32, 0),
                    },
                    new_text: String::new(),
                },
            )
        },
    }
}

/// Whether a `deadCode.unreachable` diagnostic on `diag_line` is stale:
/// the line is gone, empty or whitespace-only, or holds only a closing
/// brace `}` (the unreachable statement has already been removed).
pub fn is_remove_unreachable_stale(content: &str, diag_line: usize) -> (r: bool)
    ensures
        r == spec_stale(content@, diag_line as int),
{
    let chars = chars_of(content);
    let lines = split_lines(&chars);
    if diag_line >= lines.len() {
        return true;
    }
    let t = trimmed(&lines[diag_line]);
    let r = t.len() == 0 || (t.len() == 1 && t[0] == '}');
    proof {
        if t@.len() == 1 && t@[0] == '}' {
            assert(t@ =~= seq!['}']);
        }
    }
    r
}

/// Offset where line `n` starts when every line before it is counted
/// with one line-ending character.
pub open spec fn line_offset(lines: Seq<Seq<char>>, n: int) -> int
    decreases n,
{
    if n <= 0 {
        0
    } else {
        line_offset(lines, n - 1) + lines[n - 1].len() + 1
    }
}

/// Where the deletion of a statement ending at `stmt_end` stops: past
/// the newline right after it, or past the next newline when only
/// whitespace comes before it, else at the statement's end (at the end of
/// the text when the statement ends it).
pub open spec fn statement_delete_end(content: Seq<char>, stmt_end: int) -> int {
    if stmt_end < content.len() && content[stmt_end] == '\n' {
        stmt_end + 1
    } else if stmt_end < content.len() {
        let after = content.skip(stmt_end);
        let nl = pos_of(after, '\n');
        if nl < after.len() && trim(content.subrange(stmt_end, stmt_end + nl)).len() == 0 {
            stmt_end + nl + 1
        } else {
            stmt_end
        }
    } else {
        content.len() as int
    }
}

/// The range that removing the one statement starting on `diag_line`
/// deletes: from the start of the line through the statement's balanced
/// `;` and the rest of its line when that is blank.
pub open spec fn spec_statement_range(content: Seq<char>, diag_line: int) -> Option<Range> {
    let lines = lines_of(content);
    if diag_line < 0 || diag_line >= lines.len() {
        None
    } else {
        let line = lines[diag_line];
        let fnw = ws_prefix(line);
        if fnw >= line.len() {
            None
        } else {
            match semi_scan(content, line_offset(lines, diag_line) + fnw, Mode::Code, 0) {
                None => None,
                Some(semi) => match spec_offset_position(
                    content,
                    statement_delete_end(content, semi + 1 as int),
                ) {
                    Some(end) => Some(
                        Range { start: Position { line: diag_line as u32, character: 0 }, end },
                    ),
                    None => None,
                },
            }
        }
    }
}

proof fn lemma_line_offset_mono(lines: Seq<Seq<char>>, a: int, b: int)
    requires
        0 <= a <= b,
    ensures
        line_offset(lines, a) + (b - a) <= line_offset(lines, b),
    decreases b - a,
{
    if a < b {
        lemma_line_offset_mono(lines, a, b - 1);
    }
}

/// Builds the edit that removes the single `;`-terminated statement that
/// starts on `diag_line` (strings, comments and brackets are skipped when
/// looking for the `;`).
///
/// `None` when the line does not exist, is blank, or no such `;` follows.
#[verifier::loop_isolation(false)]
pub fn build_remove_statement_edit(content: &str, diag_line: usize) -> (r: Option<TextEdit>)
    ensures
        r is Some <==> spec_statement_range(content@, diag_line as int) is Some,
        r matches Some(e) ==> {
            &&& Some(e.range) == spec_statement_range(content@, diag_line as int)
            &&& e.new_text@ == Seq::<char>::empty()
        },
{
    let chars = chars_of(content);
    let len = chars.len();
    let lines = split_lines(&chars);
    let ghost ls = lines_of(chars@);
    if diag_line >= lines.len() {
        return None;
    }
    let line = &lines[diag_line];
    assert(line@ == ls[diag_line as int]);
    let mut fnw: usize = 0;
    while fnw < line.len() && is_whitespace(line[fnw])
        invariant
            fnw <= line@.len(),
            forall|k: int| 0 <= k < fnw ==> is_ws(#[trigger] line@[k]),
        decreases line@.len() - fnw,
    {
        fnw = fnw + 1;
    }
    proof {
        lemma_ws_prefix(line@, fnw as int);
    }
    if fnw >= line.len() {
        return None;
    }
    let mut acc: usize = 0;
    let mut k: usize = 0;
    while k < diag_line
        invariant
            k <= diag_line < lines@.len(),
            lines@.len() == ls.len(),
            forall|j: int| 0 <= j < lines@.len() ==> #[trigger] lines@[j]@ == ls[j],
            acc == line_offset(ls, k as int),
        decreases diag_line - k,
    {
        let step = match lines[k].len().checked_add(1) {
            Some(n) => n,
            None => {
                proof {
                    lemma_line_offset_mono(ls, k + 1, diag_line as int);
                    lemma_semi_none_past_end(chars@, line_offset(ls, diag_line as int) + fnw);
                }
                return None;
            },
        };
        acc = match acc.checked_add(step) {
            Some(n) => n,
            None => {
                proof {
                    lemma_line_offset_mono(ls, k + 1, diag_line as int);
                    lemma_semi_none_past_end(chars@, line_offset(ls, diag_line as int) + fnw);
                }
                return None;
            },
        };
        k = k + 1;
    }
    let start = match acc.checked_add(fnw) {
        Some(n) => n,
        None => {
            proof {
                lemma_semi_none_past_end(chars@, line_offset(ls, diag_line as int) + fnw);
            }
            return None;
        },
    };
    let semi = match find_semicolon_balanced(&chars, start) {
        Some(n) => n,
        None => return None,
    };
    proof {
        lemma_semi_scan_bound(chars@, start as int, Mode::Code, 0);
        let k = semi_scan(chars@, start as int, Mode::Code, 0)->0;
        assert(k < chars@.len());
        assert(semi == k as usize);
        assert(semi < chars@.len());
    }
    let stmt_end = semi + 1;
    let delete_end = if stmt_end < len && chars[stmt_end] == '\n' {
        stmt_end + 1
    } else if stmt_end < len {
        let after = sub_vec(&chars, stmt_end, len);
        assert(after@ =~= chars@.skip(stmt_end as int));
        let nl = position(&after, '\n');
        if nl < after.len() {
            let gap = sub_vec(&chars, stmt_end, stmt_end + nl);
            if trimmed(&gap).len() == 0 {
                stmt_end + nl + 1
            } else {
                stmt_end
            }
        } else {
            stmt_end
        }
    } else {
        len
    };
    let end = match offset_to_position(&chars, delete_end) {
        Some(p) => p,
        None => return None,
    };
    Some(
        TextEdit {
            range: Range { start: Position::new(diag_line as u32, 0), end },
            new_text: String::new(),
        },
    )
}

/// No semicolon is found from a point past the end of the text.
proof fn lemma_semi_none_past_end(s: Seq<char>, i: int)
    requires
        i > usize::MAX,
        s.len() <= usize::MAX,
    ensures
        semi_scan(s, i, Mode::Code, 0) is None,
{
}

// ── Laws ────────────────────────────────────────────────────────────────────

/// A diagnostic line that no longer exists is stale, and no edit is built
/// for it.
pub proof fn lemma_missing_line_stale_without_edit(content: Seq<char>, diag_line: int)
    requires
        diag_line >= lines_of(content).len(),
    ensures
        spec_stale(content, diag_line),
        spec_close_line(content, diag_line) is None,
{
}

proof fn lemma_scan_skips_whitespace(line: Seq<char>, i: int, j: int)
    requires
        0 <= i <= j < line.len(),
        forall|k: int| 0 <= k < j ==> is_ws(#[trigger] line[k]),
        line[j] == '}',
    ensures
        scan_line(line, i, Mode::Code, 0).closed,
    decreases j - i,
{
    if i < j {
        assert(is_ws(line[i]));
        lemma_scan_skips_whitespace(line, i + 1, j);
    }
}

/// When the diagnostic line holds only a closing `}` (so the diagnostic is
/// stale), that `}` closes the block: the edit built for the line deletes
/// nothing, starting and ending at the start of the line.
pub proof fn lemma_lone_brace_edit_is_empty(content: Seq<char>, diag_line: int)
    requires
        0 <= diag_line < lines_of(content).len(),
        trim(lines_of(content)[diag_line]) == seq!['}'],
    ensures
        spec_stale(content, diag_line),
        spec_close_line(content, diag_line) == Some(diag_line as nat),
{
    let line = lines_of(content)[diag_line];
    lemma_trim_single(line, '}');
    lemma_scan_skips_whitespace(line, 0, ws_prefix(line) as int);
}

proof fn lemma_scan_closed_has_brace(line: Seq<char>, i: int, m: Mode, depth: nat)
    requires
        0 <= i,
    ensures
        scan_line(line, i, m, depth).closed ==> line.contains('}'),
    decreases line.len() - i,
{
    if i < line.len() {
        let c = line[i];
        if m == Mode::Code && c == '}' && depth == 0 {
            assert(line[i] == '}');
        } else {
            let d: nat = if m == Mode::Code && c == '{' {
                depth + 1
            } else if m == Mode::Code && c == '}' {
                (depth - 1) as nat
            } else {
                depth
            };
            lemma_scan_closed_has_brace(line, i + 1, lex_next(m, c, char_at(line, i + 1)), d);
        }
    }
}

proof fn lemma_close_from_has_brace(lines: Seq<Seq<char>>, k: int, m: Mode, depth: nat)
    requires
        0 <= k,
    ensures
        close_line_from(lines, k, m, depth) matches Some(c) ==> lines[c as int].contains('}'),
    decreases lines.len() - k,
{
    if k < lines.len() {
        let r = scan_line(lines[k], 0, m, depth);
        lemma_scan_closed_has_brace(lines[k], 0, m, depth);
        if !r.closed {
            lemma_close_from_has_brace(lines, k + 1, r.mode, r.depth);
        }
    }
}

/// The deletion stops at the start of a line that holds a `}`: the brace
/// that closes the block is never deleted.
pub proof fn lemma_close_line_holds_brace(content: Seq<char>, diag_line: int)
    ensures
        spec_close_line(content, diag_line) matches Some(c) ==> lines_of(content)[c as int].contains(
            '}',
        ),
{
    if 0 <= diag_line < lines_of(content).len() {
        lemma_close_from_has_brace(lines_of(content), diag_line, Mode::Code, 0);
    }
}

/// Applying the block deletion fixes the diagnostic: when the closing `}`
/// stands on a line of its own, the text after the deletion keeps the
/// lines before the diagnostic line and those from the `}` line on, and
/// the diagnostic line now holds that `}`, so the diagnostic reads as
/// stale.
pub proof fn lemma_fix_makes_line_stale(content: Seq<char>, diag_line: nat)
    requires
        spec_close_line(content, diag_line as int) matches Some(k) && trim(
            lines_of(content)[k as int],
        ) == seq!['}'],
    ensures
        ({
            let k = spec_close_line(content, diag_line as int)->0;
            let fixed = delete_lines(content, diag_line, k);
            &&& lines_of(fixed) == lines_of(content).take(diag_line as int) + lines_of(content).skip(
                k as int,
            )
            &&& spec_stale(fixed, diag_line as int)
        }),
{
    let lines = lines_of(content);
    let k = spec_close_line(content, diag_line as int)->0;
    crate::util::lemma_brace_match_bounds(lines, diag_line as int);
    assert(diag_line <= k < lines.len());
    lemma_line_start(content, diag_line);
    lemma_line_start(content, k);
    let head = content.take(line_start(content, diag_line) as int);
    let tail = content.skip(line_start(content, k) as int);
    lemma_lines_concat(head, tail);
    let fixed = delete_lines(content, diag_line, k);
    assert(lines_of(fixed) == lines.take(diag_line as int) + lines.skip(k as int));
    assert(lines_of(fixed)[diag_line as int] == lines[k as int]);
}

/// Where no string literal or comment can start from the diagnostic line
/// on, the block deletion ends at the first line on which the running
/// brace depth, counted from the start of the diagnostic line, goes below
/// zero; and there is none exactly when the depth never does.
pub proof fn lemma_close_line_by_brace_count(content: Seq<char>, diag_line: nat)
    requires
        forall|j: int|
            diag_line <= j < lines_of(content).len() ==> plain_line(#[trigger] lines_of(content)[j]),
    ensures
        spec_close_line(content, diag_line as int) == count_close_from(
            lines_of(content),
            diag_line as int,
            0,
        ),
{
    lemma_close_from_plain(lines_of(content), diag_line as int, 0);
}

/// A dead line of code whose one literal is a double-quoted string `s`
/// (no `"` or backslash in it; apostrophes, braces, `#` and `/` in it are
/// string text), followed by a line holding only `}`: that `}` closes the
/// block, so the deletion stops at it.
pub proof fn lemma_string_line_then_brace(
    content: Seq<char>,
    diag_line: nat,
    p: Seq<char>,
    s: Seq<char>,
    q: Seq<char>,
)
    requires
        diag_line + 1 < lines_of(content).len(),
        lines_of(content)[diag_line as int] == p + seq!['"'] + s + seq!['"'] + q,
        forall|k: int|
            0 <= k < p.len() ==> !opens_literal(#[trigger] p[k]) && p[k] != '{' && p[k] != '}',
        forall|k: int|
            0 <= k < q.len() ==> !opens_literal(#[trigger] q[k]) && q[k] != '{' && q[k] != '}',
        forall|k: int| 0 <= k < s.len() ==> #[trigger] s[k] != '"' && s[k] != '\\',
        trim(lines_of(content)[diag_line + 1 as int]) == seq!['}'],
    ensures
        spec_close_line(content, diag_line as int) == Some((diag_line + 1) as nat),
{
    let lines = lines_of(content);
    let line = lines[diag_line as int];
    let a = p.len() as int;
    let b = a + 1 + s.len();
    assert(line[a] == '"');
    assert(line[b] == '"');
    assert forall|k: int| 0 <= k < a implies !opens_literal(#[trigger] line[k]) && line[k] != '{'
        && line[k] != '}' by {
        assert(line[k] == p[k]);
    }
    lemma_scan_code_run(line, 0, a, 0);
    assert(scan_line(line, a, Mode::Code, 0) == scan_line(line, a + 1, Mode::Double, 0));
    assert forall|k: int| a + 1 <= k < b implies #[trigger] line[k] != '"' && line[k] != '\\' by {
        assert(line[k] == s[k - a - 1]);
    }
    lemma_scan_double_run(line, a + 1, b, 0);
    assert(scan_line(line, b, Mode::Double, 0) == scan_line(line, b + 1, Mode::Code, 0));
    assert forall|k: int| b + 1 <= k < line.len() implies !opens_literal(#[trigger] line[k])
        && line[k] != '{' && line[k] != '}' by {
        assert(line[k] == q[k - b - 1]);
    }
    lemma_scan_code_run(line, b + 1, line.len() as int, 0);
    let r = scan_line(line, 0, Mode::Code, 0);
    assert(!r.closed && r.mode == Mode::Code && r.depth == 0);
    let next = lines[diag_line + 1 as int];
    lemma_trim_single(next, '}');
    lemma_scan_skips_whitespace(next, 0, ws_prefix(next) as int);
    assert(close_line_from(lines, diag_line + 1 as int, Mode::Code, 0) == Some((diag_line + 1) as nat));
}

// ── Offering and resolving the action ───────────────────────────────────────

/// Picks the `deadCode.unreachable` diagnostics of document `uri` that
/// overlap the cursor: each gets a "Remove unreachable code" action with a
/// payload (no edit; the edit is computed on resolve).
pub fn collect_remove_unreachable_actions(uri: &str, diags: &Vec<Diagnostic>, cursor: &Range) -> (hits: Vec<
    UnreachableHit,
>)
    ensures
        hits@.len() == hit_indices(diags@, *cursor, diags@.len() as int).len(),
        forall|j: int|
            0 <= j < hits@.len() ==> {
                let i = hit_indices(diags@, *cursor, diags@.len() as int)[j];
                is_action_for(#[trigger] hits@[j], diags@[i], i, uri@, *cursor)
            },
{
    let mut hits: Vec<UnreachableHit> = Vec::new();
    let mut i: usize = 0;
    while i < diags.len()
        invariant
            i <= diags@.len(),
            hits@.len() == hit_indices(diags@, *cursor, i as int).len(),
            forall|j: int|
                0 <= j < hits@.len() ==> {
                    let k = hit_indices(diags@, *cursor, i as int)[j];
                    is_action_for(#[trigger] hits@[j], diags@[k], k, uri@, *cursor)
                },
        decreases diags@.len() - i,
    {
        let d = &diags[i];
        let is_id = match &d.code {
            Some(NumberOrString::String(s)) => str_eq(s.as_str(), UNREACHABLE_ID),
            _ => false,
        };
        let ghost prev = hits@;
        assert(is_id == (d.code matches Some(NumberOrString::String(s)) && s@ == UNREACHABLE_ID@));
        let is_msg = str_eq(d.message.as_str(), UNREACHABLE_MSG);
        let overlaps = ranges_overlap(&d.range, cursor);
        if is_id && is_msg && overlaps {
            let title = ACTION_TITLE.to_owned();
            let line = d.range.start.line;
            let data = CodeActionData {
                action_kind: ACTION_KIND.to_owned(),
                uri: uri.to_owned(),
                range: *cursor,
                extra: ActionExtra { diagnostic_line: Some(line as u64) },
            };
            let hit = UnreachableHit {
                title,
                kind: CodeActionKind::QuickFix,
                is_preferred: true,
                index: i,
                diagnostic_line: line as usize,
                data,
            };
            assert(is_action_for(hit, diags@[i as int], i as int, uri@, *cursor));
            hits.push(hit);
            assert(hits@[prev.len() as int] == hit);
            assert(hit_indices(diags@, *cursor, i + 1) == hit_indices(diags@, *cursor, i as int).push(
                i as int,
            ));
            assert forall|j: int| 0 <= j < hits@.len() implies {
                let k = hit_indices(diags@, *cursor, i + 1)[j];
                is_action_for(#[trigger] hits@[j], diags@[k], k, uri@, *cursor)
            } by {
                if j < prev.len() {
                    assert(hits@[j] == prev[j]);
                    assert(hit_indices(diags@, *cursor, i + 1)[j] == hit_indices(
                        diags@,
                        *cursor,
                        i as int,
                    )[j]);
                } else {
                    assert(hit_indices(diags@, *cursor, i + 1)[j] == i);
                }
            }
        } else {
            assert(hit_indices(diags@, *cursor, i + 1) == hit_indices(diags@, *cursor, i as int));
        }
        i = i + 1;
    }
    hits
}

/// The edit a resolved "Remove unreachable code" action applies to one
/// document.
pub struct DocumentEdit {
    pub uri: tower_lsp::lsp_types::Url,
    pub edits: Vec<TextEdit>,
}

/// The edit of a resolved action whose diagnostic was on `diag_line` of
/// the document `doc_uri`, whose text is now `content`: the block
/// deletion for that line, when one can be built.
pub fn remove_unreachable_document_edit(
    doc_uri: tower_lsp::lsp_types::Url,
    content: &str,
    diag_line: u64,
) -> (r: Option<DocumentEdit>)
    ensures
        r is Some <==> spec_close_line(content@, (diag_line as usize) as int) is Some,
        r matches Some(e) ==> {
            &&& e.uri == doc_uri
            &&& e.edits@.len() == 1
            &&& is_deletion(
                e.edits@[0],
                (diag_line as usize) as int,
                spec_close_line(content@, (diag_line as usize) as int)->0,
            )
        },
{
    match build_remove_unreachable_block_edit(content, diag_line as usize) {
        Some(edit) => {
            let mut edits: Vec<TextEdit> = Vec::new();
            edits.push(edit);
            Some(DocumentEdit { uri: doc_uri, edits })
        },
        None => None,
    }
}

/// Resolves a "Remove unreachable code" action by computing its edit from
/// the current `content`.
///
/// `None` when the payload's URI does not parse, the action kind is not
/// this action's, the payload carries no diagnostic line, or no edit can
/// be built for that line.
pub fn resolve_remove_unreachable(data: &CodeActionData, content: &str) -> (r: Option<
    DocumentEdit,
>)
    ensures
        r is Some <==> {
            &&& url_parses(data.uri@)
            &&& data.action_kind@ == ACTION_KIND@
            &&& data.extra.diagnostic_line matches Some(line)
            &&& spec_close_line(content@, (line as usize) as int) is Some
        },
        r matches Some(e) ==> {
            let line = data.extra.diagnostic_line->0;
            &&& e.uri == parsed_url(data.uri@)
            &&& e.edits@.len() == 1
            &&& is_deletion(
                e.edits@[0],
                (line as usize) as int,
                spec_close_line(content@, (line as usize) as int)->0,
            )
        },
{
    let doc_uri = match parse_url(data.uri.as_str()) {
        Some(u) => u,
        None => return None,
    };
    if !str_eq(data.action_kind.as_str(), ACTION_KIND) {
        return None;
    }
    match data.extra.diagnostic_line {
        Some(line) => remove_unreachable_document_edit(doc_uri, content, line),
        None => None,
    }
}

} // verus!
