//! Asking the disk whether a path is taken, and keeping the answer with the path.
use vstd::prelude::*;

verus! {

/// What the disk answered for one path: whether something was there. Its fields are
/// private to this module and only `path_exists` makes one, so every value holds the
/// answer of a real check of the path it names.
pub struct DiskCheck {
    path: String,
    taken: bool,
}

impl DiskCheck {
    /// The path that was checked.
    pub closed spec fn checked_path(&self) -> Seq<char> {
        self.path@
    }

    /// Whether the disk reported something at the checked path.
    pub closed spec fn reported_taken(&self) -> bool {
        self.taken
    }

    /// Whether the disk reported something at the checked path.
    pub fn taken(&self) -> (b: bool)
        ensures
            b == self.reported_taken(),
    {
        self.taken
    }
}

/// Calls `Path::exists` on `path` and keeps its answer together with the path. Nothing is
/// stated of the answer, which depends on the disk; only that the path kept is the one
/// that was checked.
#[verifier::external_body]
pub(crate) fn path_exists(path: &str) -> (r: DiskCheck)
    ensures
        r.checked_path() == path@,
{
    DiskCheck { path: path.to_string(), taken: std::path::Path::new(path).exists() }
}

} // verus!
