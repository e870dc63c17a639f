//! Resolving a syntax label for a file extension through the syntect
//! highlighting engine.
//!
//! The engine is an external collaborator: the core hands it an extension
//! string, stores the opaque label that comes back, and never interprets
//! the label further. The label is looked up in syntect's bundled default
//! syntax database, a build constant, by a deterministic case-insensitive
//! search, so it is a function of the extension alone; the core names
//! that function without spelling out the database.
use vstd::prelude::*;

verus! {

/// The label that syntect's bundled default syntax database assigns to a
/// file extension, or none. The database is a constant of the build and
/// the lookup is deterministic, so the label depends on the extension
/// alone; what it is for a given extension only the engine knows.
pub uninterp spec fn default_syntax_label(ext: Seq<char>) -> Option<Seq<char>>;

/// Resolves the syntax hint for a file extension, as done once when a
/// document is loaded. Relies on syntect's
/// `SyntaxSet::load_defaults_newlines`, which loads the bundled default
/// syntax database, and `SyntaxSet::find_syntax_by_extension`, which
/// searches its registered extensions case-insensitively; the matching
/// syntax's display name is handed back.
#[verifier::external_body]
pub fn resolve_syntax_hint(extension: &str) -> (r: Option<String>)
    ensures
        r.deep_view() == default_syntax_label(extension@),
{
    let set = syntect::parsing::SyntaxSet::load_defaults_newlines();
    set.find_syntax_by_extension(extension).map(|s| s.name.clone())
}

} // verus!
