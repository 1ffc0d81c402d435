//! The symbol map of a file: the spans of source text that name symbols,
//! with what kind of symbol each names.

use vstd::prelude::*;

verus! {

/// What a symbol span names.
#[derive(Debug, Clone)]
pub enum SymbolKind {
    /// A member access: `$subject->member`, `Subject::member`, with or
    /// without a call.
    MemberAccess {
        /// The text of the subject as written (`$this`, `self`, `Foo`, ...).
        subject_text: String,
        member_name: String,
        /// Accessed with `::`.
        is_static: bool,
        /// The access is a call.
        is_method_call: bool,
    },
    /// Any other symbol.
    Other,
}

/// A span of a file (character offsets) and the symbol it names.
#[derive(Debug, Clone)]
pub struct SymbolSpan {
    pub start: u32,
    pub end: u32,
    pub kind: SymbolKind,
}

} // verus!
