//! What a run is asked to do.

use crate::model::{Change, Pin};
use vstd::prelude::*;

verus! {

/// The settings of one run.
#[derive(Debug, Clone)]
pub struct Configuration {
    /// Leave manifests under a build-output directory out of the scan.
    pub ignore_target: bool,
    /// The repository that the dependencies point at now. It is kept for
    /// callers; the rewriting does not read it.
    pub git_repo: String,
    /// The repository that the dependencies shall point at.
    pub new_repo: String,
    /// The revision to pin, if any. It wins over `branch`.
    pub rev: Option<String>,
    /// The branch to pin, if any.
    pub branch: Option<String>,
}

impl Default for Configuration {
    fn default() -> (c: Configuration)
        ensures
            !c.ignore_target,
            c.git_repo@ == Seq::<char>::empty(),
            c.new_repo@ == Seq::<char>::empty(),
            c.rev is None,
            c.branch is None,
    {
        Configuration {
            ignore_target: false,
            git_repo: String::new(),
            new_repo: String::new(),
            rev: None,
            branch: None,
        }
    }
}

impl Configuration {
    /// The pin that these settings ask for: the revision where one is given,
    /// else the branch where one is given, else none.
    pub open spec fn pin(&self) -> Pin {
        match (self.rev, self.branch) {
            (Some(r), _) => Pin::Rev(r@),
            (None, Some(b)) => Pin::Branch(b@),
            (None, None) => Pin::Keep,
        }
    }

    /// What a rewriting under these settings writes.
    pub open spec fn change(&self) -> Change {
        Change { repo: self.new_repo@, pin: self.pin() }
    }
}

} // verus!
