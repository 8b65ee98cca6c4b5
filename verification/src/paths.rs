//! Where downloads are saved: picking a file path that is not taken yet,
//! and the label a download is shown under.
use vstd::prelude::*;
use vstd::string::*;
use crate::text::{join_text, decimal, decimal_string};
use crate::disk::{DiskCheck, path_exists};

verus! {

/// The index of the last `.` in `name`, or -1 when it holds none.
pub open spec fn last_dot(name: Seq<char>) -> int
    decreases name.len(),
{
    if name.len() == 0 {
        -1
    } else if name.last() == '.' {
        name.len() - 1
    } else {
        last_dot(name.drop_last())
    }
}

/// The stem of a file name: the part before its last `.`, or the whole name when it
/// holds no `.` or its only `.` is the first character.
pub open spec fn name_stem(name: Seq<char>) -> Seq<char> {
    if last_dot(name) <= 0 {
        name
    } else {
        name.take(last_dot(name))
    }
}

/// The extension of a file name: the part after its last `.`; none when the name holds
/// no `.` or its only `.` is the first character.
pub open spec fn name_extension(name: Seq<char>) -> Option<Seq<char>> {
    if last_dot(name) <= 0 {
        None
    } else {
        Some(name.skip(last_dot(name) + 1))
    }
}

/// What `Path::file_stem` gives for a path: the stem of its file name, if it has one.
pub open spec fn path_file_stem(path: Seq<char>) -> Option<Seq<char>> {
    match path_file_name(path) {
        Some(name) => Some(name_stem(name)),
        None => None,
    }
}

/// What `Path::extension` gives for a path: the extension of its file name, if any.
pub open spec fn path_extension(path: Seq<char>) -> Option<Seq<char>> {
    match path_file_name(path) {
        Some(name) => name_extension(name),
        None => None,
    }
}

/// Names what `Path::parent` gives for a path: the path without its last component.
pub uninterp spec fn path_parent(path: Seq<char>) -> Option<Seq<char>>;

/// Names what `Path::file_name` gives for a path: its last component.
pub uninterp spec fn path_file_name(path: Seq<char>) -> Option<Seq<char>>;

/// Names what `Path::join` gives for a base path and a file name.
pub uninterp spec fn path_join(base: Seq<char>, name: Seq<char>) -> Seq<char>;

/// Calls `Path::file_stem`. As std documents it, the stem is the file name (named by
/// `path_file_name`) up to its last `.`: the whole name when it holds no `.`, or when it
/// begins with `.` and holds no other; none when there is no file name.
#[verifier::external_body]
fn file_stem_of(path: &str) -> (r: Option<String>)
    ensures
        match r {
            Some(s) => path_file_stem(path@) == Some(s@),
            None => path_file_stem(path@) is None,
        },
{
    std::path::Path::new(path).file_stem().and_then(|s| s.to_str()).map(|s| s.to_string())
}

/// Calls `Path::extension`. As std documents it, the extension is what follows the last
/// `.` of the file name (named by `path_file_name`); none when there is no file name, no
/// `.` in it, or only a leading one.
#[verifier::external_body]
fn extension_of(path: &str) -> (r: Option<String>)
    ensures
        match r {
            Some(s) => path_extension(path@) == Some(s@),
            None => path_extension(path@) is None,
        },
{
    std::path::Path::new(path).extension().and_then(|s| s.to_str()).map(|s| s.to_string())
}

/// Calls `Path::parent`; the result is named by `path_parent`.
#[verifier::external_body]
fn parent_of(path: &str) -> (r: Option<String>)
    ensures
        match r {
            Some(s) => path_parent(path@) == Some(s@),
            None => path_parent(path@) is None,
        },
{
    std::path::Path::new(path).parent().and_then(|s| s.to_str()).map(|s| s.to_string())
}

/// Calls `Path::file_name`; the result is named by `path_file_name`.
#[verifier::external_body]
fn file_name_of(path: &str) -> (r: Option<String>)
    ensures
        match r {
            Some(s) => path_file_name(path@) == Some(s@),
            None => path_file_name(path@) is None,
        },
{
    std::path::Path::new(path).file_name().and_then(|s| s.to_str()).map(|s| s.to_string())
}

/// Calls `Path::join`; the result is named by `path_join`.
#[verifier::external_body]
fn join_path(base: &str, name: &str) -> (r: String)
    ensures
        r@ == path_join(base@, name@),
{
    std::path::Path::new(base).join(name).to_string_lossy().into_owned()
}

/// The name of the `n`th alternative to a taken file: `stem (n).ext`, or `stem (n)` when
/// there is no extension.
pub open spec fn numbered_name(stem: Seq<char>, ext: Option<Seq<char>>, n: nat) -> Seq<char> {
    match ext {
        Some(e) => stem + " ("@ + decimal(n) + ")."@ + e,
        None => stem + " ("@ + decimal(n) + ")"@,
    }
}

/// The `n`th alternative to the taken file `path`, in the same directory; a path with
/// no stem counts as `download`, one with no parent as the current directory.
pub open spec fn numbered_path(path: Seq<char>, n: nat) -> Seq<char> {
    let stem = match path_file_stem(path) {
        Some(s) => s,
        None => "download"@,
    };
    let parent = match path_parent(path) {
        Some(p) => p,
        None => ""@,
    };
    path_join(parent, numbered_name(stem, path_extension(path), n))
}

/// The file name of an alternative to a taken file.
pub fn numbered_file_name(stem: &str, ext: Option<&str>, n: u32) -> (r: String)
    ensures
        r@ == numbered_name(stem@, match ext {
            Some(e) => Some(e@),
            None => None,
        }, n as nat),
{
    let number = decimal_string(n as u64);
    let head = join_text(stem, " (");
    let with_number = join_text(head.as_str(), number.as_str());
    match ext {
        Some(e) => {
            let closed = join_text(with_number.as_str(), ").");
            join_text(closed.as_str(), e)
        },
        None => join_text(with_number.as_str(), ")"),
    }
}

/// The `n`th path tried for a new file at `path`: `path` itself first, then its
/// numbered alternatives.
pub open spec fn candidate_path(path: Seq<char>, n: nat) -> Seq<char> {
    if n == 0 {
        path
    } else {
        numbered_path(path, n)
    }
}

/// The `n`th path tried for a new file at `path`.
pub fn candidate_file_path(path: &str, n: u32) -> (r: String)
    ensures
        r@ == candidate_path(path@, n as nat),
{
    if n == 0 {
        return String::from_str(path);
    }
    let stem_found = file_stem_of(path);
    let ext_found = extension_of(path);
    let parent_found = parent_of(path);
    let stem: &str = match &stem_found {
        Some(s) => s.as_str(),
        None => "download",
    };
    let ext: Option<&str> = match &ext_found {
        Some(e) => Some(e.as_str()),
        None => None,
    };
    let parent: &str = match &parent_found {
        Some(p) => p.as_str(),
        None => "",
    };
    let ghost ext_view = match ext {
        Some(e) => Some(e@),
        None => None::<Seq<char>>,
    };
    assert(ext_view == path_extension(path@));
    let name = numbered_file_name(stem, ext, n);
    join_path(parent, name.as_str())
}

/// What the search for a free path does after checking one candidate.
pub enum Probe {
    /// The candidate is free: use it.
    Free(String),
    /// The candidate is taken: check the candidate with this number next.
    Next(u32),
    /// The candidate is taken and no number is left to try.
    Exhausted,
}

/// One step of the search for a free path: candidate `n` of `path` was checked and
/// reported `taken` or not. A free candidate is used; a taken one moves on to the next
/// number, until the numbers a `u32` can hold run out.
pub fn probe(path: &str, n: u32, taken: bool) -> (r: Probe)
    ensures
        !taken ==> (r matches Probe::Free(p) && p@ == candidate_path(path@, n as nat)),
        taken && n < u32::MAX ==> r == Probe::Next((n + 1) as u32),
        taken && n == u32::MAX ==> r is Exhausted,
{
    if !taken {
        Probe::Free(candidate_file_path(path, n))
    } else if n < u32::MAX {
        Probe::Next(n + 1)
    } else {
        Probe::Exhausted
    }
}

/// A path for a new file that is not on disk yet: `path` itself when it is free, else
/// the first free one of `stem (1).ext`, `stem (2).ext`, ... in the same directory;
/// `None` when every number a `u32` can hold is taken.
///
/// The second part of the result holds, in order, the answer of the check on disk for
/// each candidate tried, from the path itself on: every candidate before the last was
/// reported taken, and a path is returned only when the disk reported the last
/// candidate, which is that path, free.
pub fn unique_path(path: &str) -> (r: (Option<String>, Vec<DiskCheck>))
    ensures
        1 <= r.1@.len() <= u32::MAX as nat + 1,
        forall|k: int|
            0 <= k < r.1@.len() ==> (#[trigger] r.1@[k]).checked_path() == candidate_path(
                path@,
                k as nat,
            ),
        forall|k: int| 0 <= k < r.1@.len() - 1 ==> (#[trigger] r.1@[k]).reported_taken(),
        r.0 matches Some(p) ==> !r.1@.last().reported_taken() && p@ == r.1@.last().checked_path()
            && p@ == candidate_path(path@, (r.1@.len() - 1) as nat),
        r.0 is None ==> r.1@.last().reported_taken() && r.1@.len() == u32::MAX as nat + 1,
{
    let mut checks: Vec<DiskCheck> = Vec::new();
    let mut n: u32 = 0;
    loop
        invariant
            checks@.len() == n as nat,
            forall|k: int|
                0 <= k < checks@.len() ==> (#[trigger] checks@[k]).checked_path()
                    == candidate_path(path@, k as nat),
            forall|k: int| 0 <= k < checks@.len() ==> (#[trigger] checks@[k]).reported_taken(),
        decreases u32::MAX - n,
    {
        let candidate = candidate_file_path(path, n);
        let check = path_exists(candidate.as_str());
        let taken = check.taken();
        checks.push(check);
        match probe(path, n, taken) {
            Probe::Free(p) => {
                return (Some(p), checks);
            },
            Probe::Next(m) => {
                n = m;
            },
            Probe::Exhausted => {
                return (None, checks);
            },
        }
    }
}

/// The label a download is shown under: the file name of its destination, or
/// `download` when the destination has none.
pub fn download_label(destination: &str) -> (r: String)
    ensures
        r@ == (match path_file_name(destination@) {
            Some(name) => name,
            None => "download"@,
        }),
{
    match file_name_of(destination) {
        Some(name) => name,
        None => String::from_str("download"),
    }
}

} // verus!
