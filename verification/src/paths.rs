//! Lexical path queries delegated to `std::path`, whose meaning depends on the
//! target platform. Paths are handled as Unicode text throughout the library.
use crate::error::{invalid_input, ErrorKind, Result};
use std::path::{Component, Path};
use vstd::prelude::*;

verus! {

/// Whether `std::path::Path::is_absolute` holds of the text on this platform.
pub uninterp spec fn spec_path_is_absolute(p: Seq<char>) -> bool;

/// The kind of one component of a path (`std::path::Component`).
#[derive(Clone, Copy, Debug, PartialEq, Eq, Structural)]
pub enum PathPart {
    /// A Windows prefix such as `C:` or `\\server\share`.
    Prefix,
    /// The root separator.
    RootDir,
    /// `.`
    CurDir,
    /// `..`
    ParentDir,
    /// An ordinary name.
    Normal,
}

/// The kinds of the components `std::path::Path::components` yields for the text.
pub uninterp spec fn spec_path_parts(p: Seq<char>) -> Seq<PathPart>;

/// Whether the text has a `..` component.
pub open spec fn spec_path_has_parent_dir(p: Seq<char>) -> bool {
    spec_path_parts(p).contains(PathPart::ParentDir)
}

/// The text of `std::path::Path::join` applied to two paths.
pub uninterp spec fn spec_path_join(base: Seq<char>, part: Seq<char>) -> Seq<char>;

/// The text of `std::path::Path::parent`.
pub uninterp spec fn spec_path_parent(p: Seq<char>) -> Option<Seq<char>>;

/// Component-wise path equality of `std::path::Path`.
pub uninterp spec fn spec_path_eq(a: Seq<char>, b: Seq<char>) -> bool;

/// `Path::is_absolute`: a deterministic function of the text on a given platform.
#[verifier::external_body]
pub(crate) fn path_is_absolute(p: &str) -> (r: bool)
    ensures
        r == spec_path_is_absolute(p@),
{
    Path::new(p).is_absolute()
}

/// `Path::components`, each component taken by its kind.
#[verifier::external_body]
fn path_parts(p: &str) -> (r: Vec<PathPart>)
    ensures
        r@ == spec_path_parts(p@),
{
    let mut parts = Vec::new();
    for component in Path::new(p).components() {
        parts.push(match component {
            Component::Prefix(_) => PathPart::Prefix,
            Component::RootDir => PathPart::RootDir,
            Component::CurDir => PathPart::CurDir,
            Component::ParentDir => PathPart::ParentDir,
            Component::Normal(_) => PathPart::Normal,
        });
    }
    parts
}

/// Whether the path has a `..` component.
pub(crate) fn path_has_parent_dir(p: &str) -> (r: bool)
    ensures
        r == spec_path_has_parent_dir(p@),
{
    let parts = path_parts(p);
    let mut i: usize = 0;
    while i < parts.len()
        invariant
            i <= parts.len(),
            parts@ == spec_path_parts(p@),
            forall|j: int| 0 <= j < i ==> parts@[j] != PathPart::ParentDir,
        decreases parts.len() - i,
    {
        if parts[i] == PathPart::ParentDir {
            assert(parts@[i as int] == PathPart::ParentDir);
            return true;
        }
        i = i + 1;
    }
    false
}

/// The number of components of a path.
pub(crate) fn path_component_count(p: &str) -> (r: usize)
    ensures
        r == spec_path_parts(p@).len(),
{
    path_parts(p).len()
}

/// Whether `std::path::Path::starts_with` holds: the components of `base` are a prefix
/// of those of `p`.
pub uninterp spec fn spec_path_starts_with(p: Seq<char>, base: Seq<char>) -> bool;

/// `Path::starts_with`, a deterministic function of the two texts on a given platform.
#[verifier::external_body]
pub(crate) fn path_starts_with(p: &str, base: &str) -> (r: bool)
    ensures
        r == spec_path_starts_with(p@, base@),
{
    Path::new(p).starts_with(base)
}

/// Whether one of two paths lies inside the other, or they are the same.
pub open spec fn spec_paths_overlap(a: Seq<char>, b: Seq<char>) -> bool {
    spec_path_starts_with(a, b) || spec_path_starts_with(b, a)
}

/// Whether one of two paths lies inside the other, or they are the same.
pub fn paths_overlap(a: &str, b: &str) -> (r: bool)
    ensures
        r == spec_paths_overlap(a@, b@),
{
    path_starts_with(a, b) || path_starts_with(b, a)
}

/// `Path::join`; joining two Unicode paths yields Unicode text.
#[verifier::external_body]
pub(crate) fn path_join(base: &str, part: &str) -> (r: String)
    ensures
        r@ == spec_path_join(base@, part@),
{
    Path::new(base).join(part).to_string_lossy().into_owned()
}

/// `Path::parent`; the parent of a Unicode path is Unicode text.
#[verifier::external_body]
pub(crate) fn path_parent(p: &str) -> (r: Option<String>)
    ensures
        match r {
            Some(q) => spec_path_parent(p@) == Some(q@),
            None => spec_path_parent(p@) == None::<Seq<char>>,
        },
{
    let parent = Path::new(p).parent()?;
    Some(parent.to_string_lossy().into_owned())
}

/// `<Path as PartialEq>::eq`, which compares paths component by component; `Path`
/// is `Eq`, so a path equals itself.
#[verifier::external_body]
pub(crate) fn path_eq(a: &str, b: &str) -> (r: bool)
    ensures
        r == spec_path_eq(a@, b@),
        a@ == b@ ==> r,
{
    Path::new(a) == Path::new(b)
}

/// The final component of a path, when it has one that is Unicode
/// (`std::path::Path::file_name`).
pub uninterp spec fn spec_path_file_name(p: Seq<char>) -> Option<Seq<char>>;

/// `Path::file_name`, converted to text when it is Unicode.
#[verifier::external_body]
pub(crate) fn path_file_name(p: &str) -> (r: Option<String>)
    ensures
        match r {
            Some(n) => spec_path_file_name(p@) == Some(n@),
            None => spec_path_file_name(p@) is None,
        },
{
    let name = Path::new(p).file_name()?;
    let text = name.to_str()?;
    Some(text.to_owned())
}

/// An absolute path without parent traversal: the lexical check applied to
/// every recorded runtime path.
pub open spec fn spec_valid_runtime_path(p: Seq<char>) -> bool {
    spec_path_is_absolute(p) && !spec_path_has_parent_dir(p)
}

pub open spec fn runtime_path_message() -> Seq<char> {
    "Runtime paths must be absolute and contain no parent traversal"@
}

/// Accepts a path recorded for a runtime.
pub fn validate_path(p: &str) -> (r: Result<()>)
    ensures
        r is Ok <==> spec_valid_runtime_path(p@),
        r matches Err(e) ==> e.spec_kind() == ErrorKind::Usage && e.spec_message() == runtime_path_message(),
{
    if !path_is_absolute(p) || path_has_parent_dir(p) {
        return Err(invalid_input("Runtime paths must be absolute and contain no parent traversal"));
    }
    Ok(())
}

} // verus!
