use vstd::prelude::*;

use crate::paths::{is_canonical, FsPath, PathComponent};

verus! {

/// The `std::path::PathBuf` that has the components of `path`, built by pushing them in
/// order. A conversion, with nothing stated of it.
#[verifier::external_body]
fn to_std_path(path: &FsPath) -> std::path::PathBuf {
    let mut buf = std::path::PathBuf::new();
    for c in path.components.iter() {
        match c {
            PathComponent::RootDir => buf.push("/"),
            PathComponent::CurDir => buf.push("."),
            PathComponent::ParentDir => buf.push(".."),
            PathComponent::Normal(name) => buf.push(name),
        }
    }
    buf
}

/// The components of a `std::path::Path`, one for one; a name that is not UTF-8 is
/// converted lossily. A conversion, with nothing stated of it.
#[verifier::external_body]
fn from_std_path(path: &std::path::PathBuf) -> FsPath {
    let mut components = Vec::new();
    for c in path.components() {
        components.push(match c {
            std::path::Component::RootDir => PathComponent::RootDir,
            std::path::Component::CurDir => PathComponent::CurDir,
            std::path::Component::ParentDir => PathComponent::ParentDir,
            std::path::Component::Normal(n) => PathComponent::Normal(n.to_string_lossy().into_owned()),
            std::path::Component::Prefix(p) => PathComponent::Normal(p.as_os_str().to_string_lossy().into_owned()),
        });
    }
    FsPath { components }
}

/// `dunce::canonicalize`, which on Unix is `std::fs::canonicalize` and on Windows that
/// call with the `\\?\` form dropped where that is safe: it resolves the path against the
/// file system (symbolic links, `.` and `..`) and fails where the path does not exist.
/// Stated is what `std::fs::canonicalize` documents of every result: it is "the
/// canonical, absolute form of a path with all intermediate components normalized", so
/// it has a root and no `.` or `..` component. Which path it is depends on what is on
/// disk, and is left unsaid.
#[verifier::external_body]
pub(crate) fn canonicalize(path: &FsPath) -> (res: Result<FsPath, std::io::Error>)
    ensures
        res matches Ok(p) ==> is_canonical(p@),
{
    dunce::canonicalize(to_std_path(path)).map(|p| from_std_path(&p))
}

/// `std::path::Path::is_file`: whether the path names a regular file on disk. Its answer
/// depends on what is on disk, so nothing is stated of it.
#[verifier::external_body]
pub(crate) fn is_regular_file(path: &FsPath) -> bool {
    to_std_path(path).is_file()
}

} // verus!
