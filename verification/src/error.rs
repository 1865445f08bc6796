use vstd::prelude::*;

use crate::paths::FsPath;

verus! {

/// Why the library refused to go on.
#[derive(Debug)]
pub enum Error {
    /// A path could not be resolved against the file system.
    PathResolution { path: FsPath, source: std::io::Error },
    /// `cargo clippy` exited with a failure status.
    ClippyFailed { exit_code: i32 },
}

} // verus!
