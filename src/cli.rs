//! The program's settings.

use vstd::prelude::*;

verus! {

/// What the program is asked to do.
pub struct Cli {
    /// Identifier of the novel to download (e.g. the-novels-extra-07082217).
    pub novel: String,
    /// Seconds to wait before trying a chapter again.
    pub retry_delay: u64,
}

} // verus!
