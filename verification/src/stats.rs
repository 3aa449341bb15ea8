//! The tally of blocks downloaded and blocks that failed.
use vstd::prelude::*;

verus! {

/// How many blocks were saved and how many failed.
#[derive(Debug, Clone, Copy, PartialEq, Eq)]
pub struct DownloadTally {
    pub successful: u64,
    pub failed: u64,
}

impl DownloadTally {
    /// No block yet.
    pub fn new() -> (r: DownloadTally)
        ensures
            r.successful == 0,
            r.failed == 0,
    {
        DownloadTally { successful: 0, failed: 0 }
    }

    /// Counts one more block, saved (`ok`) or failed.
    pub fn record(&mut self, ok: bool)
        requires
            old(self).successful + old(self).failed < u64::MAX,
        ensures
            ok ==> final(self).successful == old(self).successful + 1 && final(self).failed == old(
                self,
            ).failed,
            !ok ==> final(self).failed == old(self).failed + 1 && final(self).successful == old(
                self,
            ).successful,
    {
        if ok {
            self.successful = self.successful + 1;
        } else {
            self.failed = self.failed + 1;
        }
    }
}

} // verus!
