use vstd::prelude::*;

use crate::task::Task;

verus! {

/// What a run was asked to do.
pub struct Args {
    pub task: Task,
    /// Lines per part or number of parts, for the split tasks.
    pub n: Option<usize>,
    /// The files to process.
    pub targets: Vec<String>,
    /// The reference corpus (a file or a directory), for comparison.
    pub compare_with: Option<String>,
    /// Where the program was started from.
    pub binary_path: String,
}

} // verus!
