//! Parts of file paths, as the platform's path rules cut them.

use vstd::prelude::*;

verus! {

/// Calls `std::path::Path::extension` on `path` and hands back the extension
/// where it is text. Where a path's file name ends depends on the platform,
/// so nothing is claimed of what comes back.
#[verifier::external_body]
pub(crate) fn path_extension(path: &str) -> (r: Option<String>) {
    match std::path::Path::new(path).extension() {
        Some(extension) => match extension.to_str() {
            Some(text) => Some(text.to_owned()),
            None => None,
        },
        None => None,
    }
}

} // verus!
