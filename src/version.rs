//! The engine's monotonic version counter.
use vstd::prelude::*;
use crate::types::{RuleChain, now_millis};

verus! {

/// Hands out chain versions 1, 2, 3, ...
#[derive(Debug)]
pub struct VersionManager {
    pub current_version: u64,
}

/// A version handed out, with the time it was made.
#[derive(Debug, Clone, Copy, PartialEq, Eq, Structural)]
pub struct Version {
    pub version: u64,
    pub timestamp: i64,
}

impl VersionManager {
    /// A counter whose next version is 1.
    pub fn new() -> (r: VersionManager)
        ensures
            r.current_version == 1,
    {
        VersionManager { current_version: 1 }
    }

    /// Hands out the next version, stamped with the current time.
    pub fn create_version(&mut self, _chain: &RuleChain) -> (r: Version)
        requires
            old(self).current_version < u64::MAX,
        ensures
            r.version == old(self).current_version,
            final(self).current_version == old(self).current_version + 1,
    {
        let version = self.current_version;
        self.current_version = self.current_version + 1;
        Version { version, timestamp: now_millis() }
    }

    /// The version the next load will get.
    pub fn get_current_version(&self) -> (r: u64)
        ensures
            r == self.current_version,
    {
        self.current_version
    }
}

} // verus!
