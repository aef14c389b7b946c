//! The command line of the batch job that replays a transaction log.
use vstd::prelude::*;

verus! {

/// Simple toy payments engine: the arguments of one run.
pub struct Cli {
    /// path of the input file
    pub file_path: String,
}

} // verus!
