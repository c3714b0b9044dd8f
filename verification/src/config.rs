//! What a run is configured with. The values are read once, where the
//! process starts, and handed to whoever needs them.

use vstd::prelude::*;

verus! {

/// The credential for the change feed and the address of the queue.
#[derive(Clone, Debug, PartialEq, Eq)]
pub struct Config {
    pub api_key: String,
    pub queue_url: String,
}

impl Config {
    /// A configuration of the given credential and queue address.
    pub fn new(api_key: String, queue_url: String) -> (config: Config)
        ensures
            config.api_key@ == api_key@,
            config.queue_url@ == queue_url@,
    {
        Config { api_key, queue_url }
    }
}

/// The credential that change-feed requests are signed with.
pub fn api_key(config: &Config) -> (key: &str)
    ensures
        key@ == config.api_key@,
{
    config.api_key.as_str()
}

/// The address of the queue that batches are delivered to.
pub fn queue_url(config: &Config) -> (address: &str)
    ensures
        address@ == config.queue_url@,
{
    config.queue_url.as_str()
}

} // verus!
