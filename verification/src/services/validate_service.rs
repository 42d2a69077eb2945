use vstd::prelude::*;

use crate::builder::tree_builder::{build_tree, buildable, built_from};
use crate::domain::document::DocModel;
use crate::domain::policy::FilesystemPolicy;
use crate::error::{diag_views, Diagnostic, MdtoolError};
use crate::processing::validate::{validate, validate_spec};

verus! {

/// Validation of markdown texts under a filesystem policy.
#[derive(Debug, Clone)]
pub struct ValidateService {
    pub policy: FilesystemPolicy,
}

impl ValidateService {
    /// A service under the given policy.
    pub fn new(policy: FilesystemPolicy) -> (r: Self)
        ensures
            r.policy == policy,
    {
        ValidateService { policy }
    }

    /// The diagnostics of a text's block tree.
    pub fn validate(&self, text: &str) -> (r: Result<Vec<Diagnostic>, MdtoolError>)
        ensures
            match r {
                Ok(v) => exists|d: DocModel| #[trigger] built_from(text@, d) && diag_views(v@) == validate_spec(d),
                Err(e) => e is Parse && !buildable(text@),
            },
    {
        let doc = build_tree(text)?;
        let v = validate(&doc);
        assert(built_from(text@, doc@));
        Ok(v)
    }
}

} // verus!
