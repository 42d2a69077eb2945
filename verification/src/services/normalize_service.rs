use vstd::prelude::*;

use crate::domain::policy::FilesystemPolicy;
use crate::processing::normalize::NormalizeOptions;
use crate::services::block_service::{normalize_text, normalized_outcome, ServiceResult};

verus! {

/// Normalization of markdown texts under a filesystem policy.
#[derive(Debug, Clone)]
pub struct NormalizeService {
    pub policy: FilesystemPolicy,
}

impl NormalizeService {
    /// A service under the given policy.
    pub fn new(policy: FilesystemPolicy) -> (r: Self)
        ensures
            r.policy == policy,
    {
        NormalizeService { policy }
    }

    /// Normalize a text: the response, and the normalized text to write
    /// back unless it is a dry run or nothing changed.
    pub fn normalize(&self, text: &str, options: Option<NormalizeOptions>, dry_run: bool) -> (r: ServiceResult)
        ensures
            normalized_outcome(self.policy, text@, options, dry_run, r),
    {
        normalize_text(&self.policy, text, options, dry_run)
    }
}

} // verus!
