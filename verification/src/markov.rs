//! A handle pairing the learned transition store with the configuration
//! it was loaded under, for callers that drive the chain directly.

use vstd::prelude::*;

use crate::chain::Chain;
use crate::config::Config;

verus! {

/// The transition store together with its configuration.
#[derive(Debug)]
pub struct Handle {
    /// The learned transition store.
    pub chain: Chain,
    /// The configuration the store was loaded under.
    pub config: Config,
}

impl Handle {
    /// Wraps a store and its configuration.
    pub fn new(chain: Chain, config: Config) -> (h: Self)
        ensures
            h.chain == chain,
            h.config == config,
    {
        Handle { chain, config }
    }
}

} // verus!
