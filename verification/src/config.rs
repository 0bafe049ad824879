//! Server configuration: where documents are persisted and how often the
//! reconciliation pass runs.

use vstd::prelude::*;

verus! {

#[derive(Debug, Clone)]
pub struct ServerConfiguration {
    pub files_path: String,
    pub flush_frequency: u64,
}

impl ServerConfiguration {
    /// A configuration from its two settings.
    pub fn new(files_path: String, flush_frequency: u64) -> (c: Self)
        ensures
            c.files_path@ == files_path@,
            c.flush_frequency == flush_frequency,
    {
        ServerConfiguration { files_path, flush_frequency }
    }

    /// The reconciliation interval, in seconds.
    pub fn get_flush_frequency(&self) -> (r: u64)
        ensures
            r == self.flush_frequency,
    {
        self.flush_frequency
    }
}

} // verus!
