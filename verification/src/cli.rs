use vstd::prelude::*;

use crate::diagnostics::Level;
use crate::paths::FsPath;

verus! {

/// The command line: where the configuration file is, the lowest level to report,
/// whether to log verbosely, the files to report on, and the arguments handed on to
/// `cargo clippy`.
#[derive(Debug)]
pub struct Cli {
    pub config_path: Option<FsPath>,
    pub level: Option<Level>,
    pub verbose: bool,
    pub files: Vec<FsPath>,
    pub clippy_args: Vec<String>,
}

} // verus!
