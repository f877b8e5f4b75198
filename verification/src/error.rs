//! What can be wrong with the settings of a cache.

use vstd::prelude::*;

verus! {

/// A setting with which no cache can be built.
#[derive(Clone, Copy, Debug, PartialEq, Eq, Structural)]
pub enum ConfigError {
    /// A bounded cache must have room for at least one entry.
    ZeroCapacity,
}

} // verus!
