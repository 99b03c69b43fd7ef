//! What is asked of `syn`: whether a text is code, and which path a text
//! is.

use crate::meta::{MetaPath, PathModel};
use vstd::prelude::*;

verus! {

/// Whether `syn::parse_str` reads the text as a `proc_macro2::TokenStream`.
pub uninterp spec fn lexes_as_tokens(text: Seq<char>) -> bool;

/// The path that `syn::Path::parse_mod_style` reads the whole text as: its
/// identifiers, and whether `::` stands before them. `None` where the text
/// is no such path.
pub uninterp spec fn mod_path(text: Seq<char>) -> Option<PathModel>;

/// Calls `syn::parse_str` for a `proc_macro2::TokenStream` and says whether
/// it succeeded. The contract claims only that the answer is a function of
/// the text: `proc_macro2` is built without its `proc-macro` feature, and
/// then reads the text with a lexer of its own.
#[verifier::external_body]
pub(crate) fn lexes(text: &str) -> (r: bool)
    ensures
        r == lexes_as_tokens(text@),
{
    syn::parse_str::<proc_macro2::TokenStream>(text).is_ok()
}

/// Calls `syn::parse::Parser::parse_str` with `syn::Path::parse_mod_style`
/// and hands out the path as plain values. That parser reads identifiers
/// and `::` only and looks at no literal. The contract claims only that the
/// answer is a function of the text.
#[verifier::external_body]
pub(crate) fn parse_mod_path(text: &str) -> (r: Option<MetaPath>)
    ensures
        r.deep_view() == mod_path(text@),
{
    match syn::parse::Parser::parse_str(syn::Path::parse_mod_style, text) {
        Ok(path) => Some(
            MetaPath {
                leading_colon: path.leading_colon.is_some(),
                segments: path.segments.iter().map(|s| s.ident.to_string()).collect(),
            },
        ),
        Err(_) => None,
    }
}

} // verus!
