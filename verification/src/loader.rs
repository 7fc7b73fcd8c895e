//! Template loading: path composition, the re-embed path, and the turn
//! from a file-read outcome into a template source or a hard failure. The
//! read itself is the host's: the loader is a pure function of the path
//! and of what the read returned.

use vstd::prelude::*;
use crate::replace::{spec_replace_all, replace_all};

verus! {

/// A loaded template: the path the invocation named and the verbatim text
/// of the file. Immutable once created.
#[derive(Debug, Clone)]
pub struct TemplateSource {
    pub path: String,
    pub raw_text: String,
}

/// A failed load: the path could not be read as text. A hard failure; the
/// generation pass aborts.
#[derive(Debug, Clone, PartialEq, Eq)]
pub enum LoaderError {
    /// Carries the path that failed and the underlying cause.
    ReadFailed { path: String, cause: String },
}

/// Composes the full template path: the source root, the fixed source
/// subdirectory, then the relative path the invocation gave.
pub fn compose_template_path(source_root: &str, relative_path: &str) -> (r: String)
    ensures
        r@ == source_root@ + "/src/"@ + relative_path@,
{
    let mut out = source_root.to_owned();
    out.append("/src/");
    out.append(relative_path);
    out
}

/// The path under which the generated definition re-embeds the template:
/// the relative path with every "/src" segment removed, so that the
/// embedded resource is addressed relative to a different root than the
/// one the file was read from.
pub fn embed_path(relative_path: &str) -> (r: String)
    ensures
        r@ == spec_replace_all(relative_path@, "/src"@, Seq::<char>::empty()),
{
    let r = replace_all(relative_path, "/src", "");
    proof {
        reveal_strlit("");
        assert(""@ =~= Seq::<char>::empty());
    }
    r
}

/// Turns the outcome of reading the template file into a template source,
/// or into a read failure that names the path and the cause. Succeeds if
/// and only if the read did; nothing is retried or downgraded.
pub fn load_template(path: String, outcome: Result<String, String>) -> (r: Result<
    TemplateSource,
    LoaderError,
>)
    ensures
        outcome matches Ok(text) ==> (r matches Ok(src) && src.path@ == path@ && src.raw_text@
            == text@),
        outcome matches Err(cause) ==> (r matches Err(e) && (e matches LoaderError::ReadFailed {
            path: p,
            cause: c,
        } && p@ == path@ && c@ == cause@)),
{
    match outcome {
        Ok(text) => Ok(TemplateSource { path, raw_text: text }),
        Err(cause) => Err(LoaderError::ReadFailed { path, cause }),
    }
}

} // verus!
