//! Filesystem paths as the library carries them: opaque values handed
//! through, built only by joining components onto a root.

use vstd::prelude::*;
use std::path::{Path, PathBuf};

verus! {

/// `std::path::PathBuf`, carried through the library as an opaque value.
#[verifier::external_type_specification]
#[verifier::external_body]
pub struct ExPathBuf(PathBuf);

/// `std::path::Path`, the borrowed form of a path.
#[verifier::external_type_specification]
#[verifier::external_body]
pub struct ExPath(Path);

/// The path that `Path::join` makes of `base` and a component with the given
/// characters. Std's `join` reads nothing but its two arguments and the
/// compiled target's separator, so equal arguments give equal paths.
pub uninterp spec fn joined(base: &Path, component: Seq<char>) -> PathBuf;

/// The borrowed `Path` that `PathBuf::as_path` hands out for an owned path.
pub uninterp spec fn borrowed(p: &PathBuf) -> &Path;

/// `PathBuf::as_path`: the borrowed form of an owned path, named by
/// [`borrowed`]; it reads nothing but the path itself.
pub assume_specification[PathBuf::as_path](p: &PathBuf) -> (r: &Path)
    ensures
        r == borrowed(p),
;

/// `Path::join`: an owned path with `component` adjoined to `base` (std
/// documents that an absolute component replaces `base`). The result is named
/// by [`joined`]; what the path holds is not described here, paths having no
/// model in this library.
#[verifier::external_body]
pub(crate) fn join(base: &Path, component: &str) -> (r: PathBuf)
    ensures
        r == joined(base, component@),
{
    base.join(component)
}

/// `Clone` for `PathBuf`: a copy of the same path, as std's `Clone` for an
/// owned buffer makes (the claim vstd makes of `String`'s clone).
pub assume_specification[<PathBuf as Clone>::clone](p: &PathBuf) -> (r: PathBuf)
    ensures
        r == *p,
;

} // verus!
