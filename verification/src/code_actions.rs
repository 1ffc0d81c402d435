//! Code actions: the payload that travels between offering an action and
//! resolving it, and the actions themselves.

pub mod phpstan;

use vstd::prelude::*;

use crate::lsp::Range;

verus! {

/// A document URI as the editor protocol parses it (`url::Url`).
#[verifier::external_type_specification]
#[verifier::external_body]
pub struct ExUrl(tower_lsp::lsp_types::Url);

/// The action-specific data a payload carries.
#[derive(Debug, Clone)]
pub struct ActionExtra {
    /// The line of the diagnostic the action was offered for.
    pub diagnostic_line: Option<u64>,
}

/// The payload of a code action offered without an edit: which action,
/// on which document and range, with action-specific `extra` data.
#[derive(Debug, Clone)]
pub struct CodeActionData {
    pub action_kind: String,
    pub uri: String,
    pub range: Range,
    pub extra: ActionExtra,
}

/// Whether `url::Url::parse` accepts `s`: a property of `s` alone.
pub uninterp spec fn url_parses(s: Seq<char>) -> bool;

/// The URL that `url::Url::parse` makes of `s`: a function of `s` alone.
pub uninterp spec fn parsed_url(s: Seq<char>) -> tower_lsp::lsp_types::Url;

/// `Url::parse` (the `FromStr` of `tower_lsp::lsp_types::Url`): the
/// contract claims that whether it succeeds, and the URL it gives, depend
/// on the text alone.  What the URL holds is opaque here.
#[verifier::external_body]
pub(crate) fn parse_url(s: &str) -> (r: Option<tower_lsp::lsp_types::Url>)
    ensures
        r is Some <==> url_parses(s@),
        r matches Some(u) ==> u == parsed_url(s@),
{
    tower_lsp::lsp_types::Url::parse(s).ok()
}

} // verus!
