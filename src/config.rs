//! Settings of a search.

use vstd::prelude::*;

verus! {

/// How many workers scan, up to which value, with how many rounds of the
/// primality test per candidate.
pub struct Config {
    pub worker_count: u32,
    pub ceiling: u64,
    pub trials: u32,
}

impl Config {
    /// A search with the given settings.
    pub fn new(worker_count: u32, ceiling: u64, trials: u32) -> (r: Config)
        ensures
            r.worker_count == worker_count,
            r.ceiling == ceiling,
            r.trials == trials,
    {
        Config { worker_count, ceiling, trials }
    }
}

impl Default for Config {
    /// Eight workers, a ceiling of ten million, ten rounds per candidate.
    fn default() -> (r: Config)
        ensures
            r.worker_count == 8,
            r.ceiling == 10_000_000,
            r.trials == 10,
    {
        Config { worker_count: 8, ceiling: 10_000_000, trials: 10 }
    }
}

} // verus!
