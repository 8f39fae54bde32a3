//! Git-free single-file mode: a conflict-marked file resolved in place.

use vstd::prelude::*;

verus! {

/// Arguments of the `file` subcommand.
#[derive(Debug, Clone)]
pub struct FileArgs {
    /// Path of a file with `<<<<<<< / ======= / >>>>>>>` conflict markers
    pub path: String,
}

} // verus!
