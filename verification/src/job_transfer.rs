use vstd::prelude::*;

use crate::digest::Digest;
use crate::job_description::JobDescription;
use std::collections::HashMap;

verus! {

/// The pull-direction message of the protocol: the best known score for
/// each instance digest. Consumed elsewhere; defined here because it
/// shares the protocol surface.
pub struct TransferFromServer {
    pub best_scores: HashMap<Digest, u32>,
}

/// The push-direction message: one batch of records for one POST.
pub struct TransferToServer {
    pub jobs: Vec<JobDescription>,
}

} // verus!
