//! Filesystem paths, as std's `PathBuf`, and joining them.
use vstd::prelude::*;

use std::path::PathBuf;

verus! {

/// std's `PathBuf`, carried as an opaque value.
#[verifier::external_type_specification]
#[verifier::external_body]
pub struct ExPathBuf(std::path::PathBuf);

/// Relies on `PathBuf`'s `Clone`: an equal path.
pub assume_specification[ <std::path::PathBuf as Clone>::clone ](p: &PathBuf) -> (r: PathBuf)
    ensures
        r == *p,
;

/// The path `base` joined with the relative component `part`.
pub uninterp spec fn path_join(base: PathBuf, part: Seq<char>) -> PathBuf;

/// Relies on `Path::join`: the result depends on the two arguments alone.
#[verifier::external_body]
pub(crate) fn join(base: &PathBuf, part: &str) -> (r: PathBuf)
    ensures
        r == path_join(*base, part@),
{
    base.join(part)
}

} // verus!
