//! The editor-protocol values the library computes: positions, ranges,
//! text edits and diagnostics.

use vstd::prelude::*;

verus! {

/// A position in a document: zero-based line, and zero-based character
/// within the line (counted in `char`s).
#[derive(Debug, Clone, Copy, PartialEq, Eq, Structural)]
pub struct Position {
    pub line: u32,
    pub character: u32,
}

impl Position {
    /// The position at `line`, `character`.
    pub fn new(line: u32, character: u32) -> (p: Position)
        ensures
            p.line == line,
            p.character == character,
    {
        Position { line, character }
    }
}

/// A range in a document, from `start` up to (not including) `end`.
#[derive(Debug, Clone, Copy, PartialEq, Eq, Structural)]
pub struct Range {
    pub start: Position,
    pub end: Position,
}

/// A replacement of the text in `range` by `new_text`.
#[derive(Debug)]
pub struct TextEdit {
    pub range: Range,
    pub new_text: String,
}

/// How serious a diagnostic is.
#[derive(Debug, Clone, Copy, PartialEq, Eq, Structural)]
pub enum DiagnosticSeverity {
    Error,
    Warning,
    Information,
    Hint,
}

/// The kind of a code action.
#[derive(Debug, Clone, Copy, PartialEq, Eq, Structural)]
pub enum CodeActionKind {
    /// A fix for a reported problem.
    QuickFix,
}

/// A diagnostic's code: a number or a string.
#[derive(Debug)]
pub enum NumberOrString {
    Number(i32),
    String(String),
}

/// A diagnostic reported on a range of a document.
#[derive(Debug)]
pub struct Diagnostic {
    pub range: Range,
    pub severity: Option<DiagnosticSeverity>,
    pub code: Option<NumberOrString>,
    pub source: Option<String>,
    pub message: String,
}

/// The mathematical value of a diagnostic code.
pub enum CodeView {
    Number(i32),
    Text(Seq<char>),
}

/// The mathematical value of a [`Diagnostic`].
pub struct DiagnosticView {
    pub range: Range,
    pub severity: Option<DiagnosticSeverity>,
    pub code: Option<CodeView>,
    pub source: Option<Seq<char>>,
    pub message: Seq<char>,
}

impl View for Diagnostic {
    type V = DiagnosticView;

    open spec fn view(&self) -> DiagnosticView {
        DiagnosticView {
            range: self.range,
            severity: self.severity,
            code: match self.code {
                Some(NumberOrString::Number(n)) => Some(CodeView::Number(n)),
                Some(NumberOrString::String(s)) => Some(CodeView::Text(s@)),
                None => None,
            },
            source: match self.source {
                Some(s) => Some(s@),
                None => None,
            },
            message: self.message@,
        }
    }
}

/// `a` comes before `b`, or is `b`.
pub open spec fn pos_le(a: Position, b: Position) -> bool {
    a.line < b.line || (a.line == b.line && a.character <= b.character)
}

/// The two ranges share at least one position (their ends counting as
/// inside them).
pub open spec fn spec_ranges_overlap(a: Range, b: Range) -> bool {
    pos_le(a.start, b.end) && pos_le(b.start, a.end)
}

/// Positions are ordered by line first, then by character within a line.
pub proof fn lemma_position_order(a: Position, b: Position)
    ensures
        a.line < b.line ==> pos_le(a, b) && !pos_le(b, a),
        a.line == b.line ==> (pos_le(a, b) <==> a.character <= b.character),
        pos_le(a, b) || pos_le(b, a),
        pos_le(a, b) && pos_le(b, a) ==> a == b,
{
}

/// A range that ends on a line before the line on which another starts
/// does not overlap it, in either order.
pub proof fn lemma_ranges_apart_by_line(a: Range, b: Range)
    requires
        a.end.line < b.start.line,
    ensures
        !spec_ranges_overlap(a, b),
        !spec_ranges_overlap(b, a),
{
}

/// Ranges overlap exactly when each starts no later than the other ends,
/// positions compared line first: in particular a range overlaps any
/// range that contains one of its positions.
pub proof fn lemma_overlap_shared_position(a: Range, b: Range, x: Position)
    requires
        pos_le(a.start, x) && pos_le(x, a.end),
        pos_le(b.start, x) && pos_le(x, b.end),
    ensures
        spec_ranges_overlap(a, b),
{
}

/// Whether `a` is at or before `b`.
pub fn position_le(a: &Position, b: &Position) -> (r: bool)
    ensures
        r == pos_le(*a, *b),
{
    a.line < b.line || (a.line == b.line && a.character <= b.character)
}

/// Whether two ranges overlap: each starts no later than the other ends.
pub fn ranges_overlap(a: &Range, b: &Range) -> (r: bool)
    ensures
        r == spec_ranges_overlap(*a, *b),
{
    position_le(&a.start, &b.end) && position_le(&b.start, &a.end)
}

} // verus!
