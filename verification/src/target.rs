//! Target validation.
//!
//! A watch target pairs an absolute root directory with a set of glob
//! patterns.  The pattern set is normalized at construction, so the order in
//! which patterns were given can never influence a listing.

use vstd::prelude::*;
use vstd::string::StrSliceExecFns;

use crate::error::InitTargetError;
use crate::order::sorted_distinct;
use crate::snapshot::copy_paths;
use crate::snapshot::normalize;

verus! {

/// What the filesystem reports about a path.
#[derive(Clone, Copy, Debug, PartialEq, Eq, Structural)]
pub enum PathKind {
    /// No entry of that name could be read.
    Missing,
    /// The entry is a directory.
    Directory,
    /// The entry exists but is not a directory.
    NotDirectory,
}

/// An absolute path: one that starts at the root separator.
pub open spec fn spec_is_absolute(s: Seq<char>) -> bool {
    s.len() > 0 && s[0] == '/'
}

/// Executable test matching `spec_is_absolute`.
pub fn is_absolute_path(s: &str) -> (r: bool)
    ensures
        r == spec_is_absolute(s@),
{
    let n: usize = s.unicode_len();
    if n == 0 {
        return false;
    }
    let c = s.get_char(0);
    c == '/'
}

/// Asks the filesystem what kind of entry the path names.
///
/// Relies on `std::path::Path::metadata`: it reports a directory, some other
/// kind of entry, or an error for a path that is missing or unreadable.  The
/// answer depends on the state of the disk, so nothing is promised of it.
#[verifier::external_body]
fn probe_path(location: &str) -> (k: PathKind) {
    match std::path::Path::new(location).metadata() {
        Ok(meta) => {
            if meta.is_dir() {
                PathKind::Directory
            } else {
                PathKind::NotDirectory
            }
        },
        Err(_) => PathKind::Missing,
    }
}

/// A validated watch target; immutable once constructed.
#[derive(Debug)]
pub struct _Target {
    pub(crate) location: String,
    pub(crate) pattern: Vec<String>,
}

impl _Target {
    /// The root path.
    pub closed spec fn root(&self) -> Seq<char> {
        self.location@
    }

    /// The pattern set, sorted and duplicate-free.
    pub closed spec fn patterns(&self) -> Seq<Seq<char>> {
        self.pattern.deep_view()
    }

    /// A well-formed target: an absolute root and a normalized pattern set.
    pub open spec fn wf(&self) -> bool {
        spec_is_absolute(self.root()) && sorted_distinct(self.patterns())
    }

    /// The root as a fresh string.
    pub fn root_string(&self) -> (r: String)
        ensures
            r@ == self.root(),
    {
        self.location.clone()
    }

    /// The pattern set as a fresh vector.
    pub fn patterns_vec(&self) -> (r: Vec<String>)
        ensures
            r.deep_view() == self.patterns(),
    {
        copy_paths(&self.pattern)
    }

    /// Validate `(location, pattern)` against the filesystem.  A relative
    /// root is rejected outright; what exists on disk decides between the
    /// remaining outcomes, as `target_of_probe` states exactly.
    pub fn new(location: &str, pattern: &Vec<String>) -> (r: Result<_Target, InitTargetError>)
        ensures
            (r matches Err(e) && e is NonAbsPath) <==> !spec_is_absolute(location@),
            r matches Ok(t) ==> t.wf() && t.root() == location@ && t.patterns().to_set()
                == pattern.deep_view().to_set(),
    {
        let kind = probe_path(location);
        target_of_probe(location, pattern, kind)
    }
}

/// Decide one construction attempt from the filesystem's report.  The attempt
/// succeeds exactly when the root is absolute and names a directory, and each
/// violated precondition maps to its own error kind.
pub fn target_of_probe(location: &str, pattern: &Vec<String>, kind: PathKind) -> (r: Result<
    _Target,
    InitTargetError,
>)
    ensures
        r is Ok <==> spec_is_absolute(location@) && kind is Directory,
        (r matches Err(e) && e is NonAbsPath) <==> !spec_is_absolute(location@),
        (r matches Err(e) && e is NonExistent) <==> spec_is_absolute(location@) && kind is Missing,
        (r matches Err(e) && e is NotADirectory) <==> spec_is_absolute(location@)
            && kind is NotDirectory,
        r matches Ok(t) ==> t.wf() && t.root() == location@ && t.patterns().to_set()
            == pattern.deep_view().to_set(),
{
    if !is_absolute_path(location) {
        Err(InitTargetError::NonAbsPath)
    } else {
        match kind {
            PathKind::Missing => Err(InitTargetError::NonExistent),
            PathKind::NotDirectory => Err(InitTargetError::NotADirectory),
            PathKind::Directory => {
                let normalized = normalize(pattern);
                Ok(_Target { location: location.to_owned(), pattern: normalized })
            },
        }
    }
}

} // verus!
