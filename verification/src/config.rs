//! The miner's configuration, as read from its JSON configuration file.
//! Loading and decoding the file is the program's job; the library only
//! defines what a configuration holds.

use vstd::prelude::*;

verus! {

/// The recognized configuration options. The required ones are `Option`s
/// here because the file may omit them; the program fails at startup when a
/// required one is missing.
pub struct MinerConfiguration {
    /// Base URL of the mining pool. Required.
    pub pool_url: Option<String>,
    /// Directories to scan for plot files. Required; may be empty.
    pub plot_folders: Option<Vec<String>>,
    /// Optional local cap on deadlines worth submitting.
    pub max_deadline: Option<u32>,
    /// Optional I/O buffer size hint; unused by the pipeline.
    pub plot_buffer_size: Option<u32>,
}

impl MinerConfiguration {
    /// The deadline cap a round runs under: the pool's target deadline,
    /// lowered to `max_deadline` where the configuration sets a lower one.
    pub fn effective_target_deadline(&self, pool_target: u64) -> (r: u64)
        ensures
            r == (match self.max_deadline {
                Some(m) => if (m as u64) < pool_target {
                    m as u64
                } else {
                    pool_target
                },
                None => pool_target,
            }),
    {
        match self.max_deadline {
            Some(m) if (m as u64) < pool_target => m as u64,
            _ => pool_target,
        }
    }
}

} // verus!
