use vstd::prelude::*;

use crate::job_description::{job_eqv, spec_size_estimate, JobDescription};
use crate::job_transfer::TransferToServer;
use crate::queue::{
    item_le, lemma_sorted_items_unique, lemma_sum_sizes_nonneg, lemma_sum_sizes_push,
    sorted_items, sum_sizes, BatchQueue,
};

verus! {

/// Everything that can go wrong in this library or in the transmission
/// step built on top of it.
#[derive(Clone, Copy, Debug, PartialEq, Eq, Structural)]
pub enum UploadError {
    /// A digest string of the wrong length, or with a non-hex character.
    InvalidDigest,
    /// The configured endpoint URL could not be parsed.
    InvalidEndpoint,
    /// A network error or a non-success response during an upload.
    TransmissionFailure,
}

/// The two server-imposed caps on one upload request, passed in at
/// construction so deployments and tests can vary them.
#[derive(Clone, Copy, Debug, PartialEq, Eq, Structural)]
pub struct UploadConfig {
    pub max_items_per_batch: usize,
    pub max_bytes_per_batch: usize,
}

impl UploadConfig {
    /// Both caps must be positive for batching to make progress.
    pub open spec fn wf(&self) -> bool {
        self.max_items_per_batch >= 1 && self.max_bytes_per_batch >= 1
    }

    /// The reference deployment caps: 100 records and 5,000,000 size
    /// units per request.
    pub fn reference() -> (r: UploadConfig)
        ensures
            r.max_items_per_batch == 100,
            r.max_bytes_per_batch == 5_000_000,
            r.wf(),
    {
        UploadConfig { max_items_per_batch: 100, max_bytes_per_batch: 5_000_000 }
    }
}

/// What the url crate normalizes a well-formed absolute URL to.
pub uninterp spec fn normalized_url(s: Seq<char>) -> Seq<char>;

/// What the url crate produces when resolving a path against a base URL.
pub uninterp spec fn joined_url(base: Seq<char>, path: Seq<char>) -> Seq<char>;

/// Whether the url crate accepts the string as an absolute URL; success
/// of url::Url::parse depends on the input alone.
pub uninterp spec fn url_parse_ok(s: Seq<char>) -> bool;

/// Whether the url crate can parse the base and resolve the path
/// against it; success depends on the two inputs alone.
pub uninterp spec fn url_join_ok(base: Seq<char>, path: Seq<char>) -> bool;

/// Relies on url::Url::parse: accepts exactly the well-formed absolute
/// URLs and returns the normalized serialization, which depends on the
/// input alone.
#[verifier::external_body]
fn parse_url(raw: &str) -> (r: Option<String>)
    ensures
        r is Some <==> url_parse_ok(raw@),
        r matches Some(u) ==> u@ == normalized_url(raw@),
{
    match url::Url::parse(raw) {
        Ok(u) => Some(String::from(u.as_str())),
        Err(_) => None,
    }
}

/// Relies on url::Url::parse and url::Url::join: parses the base and
/// resolves the path against it; the result depends on the two inputs
/// alone.
#[verifier::external_body]
fn join_url(base: &str, path: &str) -> (r: Option<String>)
    ensures
        r is Some <==> url_join_ok(base@, path@),
        r matches Some(u) ==> u@ == joined_url(base@, path@),
{
    match url::Url::parse(base) {
        Ok(b) => match b.join(path) {
            Ok(u) => Some(String::from(u.as_str())),
            Err(_) => None,
        },
        Err(_) => None,
    }
}

/// Accumulates finished records and decides when and how to carve them
/// into upload-sized batches. The network call itself is made by the
/// caller, on the payloads this type hands out.
pub struct Upload {
    url: String,
    queue: BatchQueue,
    config: UploadConfig,
}

impl Upload {
    /// Builds an uploader against a server base URL; the collection
    /// endpoint path is resolved against it. Fails with
    /// `InvalidEndpoint` exactly when the url crate cannot parse or
    /// resolve the input.
    pub fn new_with_server(server: &str, config: UploadConfig) -> (r: Result<Upload, UploadError>)
        requires
            config.wf(),
        ensures
            r is Ok <==> url_join_ok(server@, "/api/solution"@),
            r matches Ok(up) ==> up.wf() && up.pending().len() == 0 && up.spec_config() == config
                && up.spec_url() == joined_url(server@, "/api/solution"@),
            r matches Err(e) ==> e == UploadError::InvalidEndpoint,
    {
        match join_url(server, "/api/solution") {
            Some(u) => Ok(Upload { url: u, queue: BatchQueue::new(), config }),
            None => Err(UploadError::InvalidEndpoint),
        }
    }

    /// Builds an uploader against a complete endpoint URL. Fails with
    /// `InvalidEndpoint` exactly when the url crate cannot parse the
    /// input.
    pub fn new_with_endpoint(endpoint: &str, config: UploadConfig) -> (r: Result<
        Upload,
        UploadError,
    >)
        requires
            config.wf(),
        ensures
            r is Ok <==> url_parse_ok(endpoint@),
            r matches Ok(up) ==> up.wf() && up.pending().len() == 0 && up.spec_config() == config
                && up.spec_url() == normalized_url(endpoint@),
            r matches Err(e) ==> e == UploadError::InvalidEndpoint,
    {
        match parse_url(endpoint) {
            Some(u) => Ok(Upload { url: u, queue: BatchQueue::new(), config }),
            None => Err(UploadError::InvalidEndpoint),
        }
    }

    /// The pending records, in ascending queue order (largest last).
    pub closed spec fn pending(&self) -> Seq<JobDescription> {
        self.queue.jobs()
    }

    /// The configured caps.
    pub closed spec fn spec_config(&self) -> UploadConfig {
        self.config
    }

    /// The configured endpoint.
    pub closed spec fn spec_url(&self) -> Seq<char> {
        self.url@
    }

    /// Internal consistency of the queue and positivity of the caps.
    pub closed spec fn wf(&self) -> bool {
        self.queue.wf() && self.config.wf()
    }

    /// Number of pending records.
    pub fn len(&self) -> (r: usize)
        ensures
            r == self.pending().len(),
    {
        self.queue.len()
    }

    /// Whether nothing is pending.
    pub fn is_empty(&self) -> (r: bool)
        ensures
            r == (self.pending().len() == 0),
    {
        self.queue.is_empty()
    }

    /// The running total of all pending size estimates.
    pub fn total_size_estimate(&self) -> (r: usize)
        requires
            self.wf(),
        ensures
            r == sum_sizes(self.pending()),
    {
        self.queue.total_size_estimate()
    }

    /// The configured endpoint, for the caller that transmits.
    pub fn url(&self) -> (r: &str)
        ensures
            r@ == self.spec_url(),
    {
        self.url.as_str()
    }

    /// The configured caps.
    pub fn config(&self) -> (r: UploadConfig)
        ensures
            r == self.spec_config(),
    {
        self.config
    }

    /// The pending records are sorted ascending under the queue's item
    /// order, so what `build_payload` selects, and in which order,
    /// depends only on the records pending and the caps, never on the
    /// order in which they arrived.
    pub proof fn lemma_pending_sorted(&self)
        requires
            self.wf(),
        ensures
            forall|i: int, j: int|
                0 <= i < j < self.pending().len() ==> item_le(
                    #[trigger] self.pending()[i],
                    #[trigger] self.pending()[j],
                ),
    {
        self.queue.lemma_sorted();
    }

    /// Batch selection is deterministic: two uploaders whose queues hold
    /// the same multiset of records have the same records pending, in
    /// the same order, up to record content. With equal caps,
    /// `build_payload` then carves identical batches: selection never
    /// depends on insertion history.
    pub proof fn lemma_batch_selection_deterministic(&self, other: &Upload)
        requires
            self.wf(),
            other.wf(),
            self.pending().to_multiset() == other.pending().to_multiset(),
        ensures
            self.pending().len() == other.pending().len(),
            forall|k: int|
                0 <= k < self.pending().len() ==> job_eqv(
                    #[trigger] self.pending()[k],
                    other.pending()[k],
                ),
    {
        self.queue.lemma_sorted();
        other.queue.lemma_sorted();
        assert(sorted_items(self.pending()));
        assert(sorted_items(other.pending()));
        lemma_sorted_items_unique(self.pending(), other.pending());
    }

    /// Queues one record for a later upload. No network effect.
    pub fn add_job(&mut self, desc: JobDescription)
        requires
            old(self).wf(),
            sum_sizes(old(self).pending()) + spec_size_estimate(desc) <= usize::MAX,
        ensures
            final(self).wf(),
            final(self).spec_config() == old(self).spec_config(),
            final(self).spec_url() == old(self).spec_url(),
            final(self).pending().len() == old(self).pending().len() + 1,
            sum_sizes(final(self).pending()) == sum_sizes(old(self).pending())
                + spec_size_estimate(desc),
            exists|p: int|
                0 <= p <= old(self).pending().len() && final(self).pending() =~= old(
                    self,
                ).pending().insert(p, desc),
    {
        self.queue.push(desc);
    }

    /// Whether the queue has grown past either opportunistic-upload
    /// threshold: more than 75% of one batch's byte budget, or more than
    /// 25% of the item cap.
    pub fn needs_upload(&self) -> (r: bool)
        requires
            self.wf(),
        ensures
            r == (sum_sizes(self.pending()) * 4 > self.spec_config().max_bytes_per_batch * 3
                || self.pending().len() * 4 > self.spec_config().max_items_per_batch),
    {
        let total = self.queue.total_size_estimate();
        let n = self.queue.len();
        (total as u128) * 4 > (self.config.max_bytes_per_batch as u128) * 3 || (n as u128) * 4 > (
        self.config.max_items_per_batch as u128)
    }

    /// Carves the pending records into one outgoing batch, biggest
    /// first, until the byte budget is reached, the item cap is hit, or
    /// the queue runs out. A single record larger than the whole byte
    /// budget still travels (alone): the budget is a target, not a hard
    /// limit on one record.
    pub fn build_payload(&mut self) -> (r: TransferToServer)
        requires
            old(self).wf(),
        ensures
            final(self).wf(),
            final(self).spec_config() == old(self).spec_config(),
            final(self).spec_url() == old(self).spec_url(),
            r.jobs@.len() <= old(self).pending().len(),
            final(self).pending() =~= old(self).pending().take(
                old(self).pending().len() - r.jobs@.len(),
            ),
            forall|i: int|
                0 <= i < r.jobs@.len() ==> r.jobs@[i] == old(self).pending()[old(
                    self,
                ).pending().len() - 1 - i],
            forall|i: int, j: int| 0 <= i < j < r.jobs@.len() ==> item_le(r.jobs@[j], r.jobs@[i]),
            r.jobs@.len() <= old(self).spec_config().max_items_per_batch,
            forall|j: int|
                0 <= j < r.jobs@.len() ==> sum_sizes(r.jobs@.take(j)) < old(
                    self,
                ).spec_config().max_bytes_per_batch,
            r.jobs@.len() == old(self).pending().len() || r.jobs@.len() == old(
                self,
            ).spec_config().max_items_per_batch || sum_sizes(r.jobs@) >= old(
                self,
            ).spec_config().max_bytes_per_batch,
            old(self).pending().len() > 0 ==> r.jobs@.len() >= 1,
            sum_sizes(final(self).pending()) == sum_sizes(old(self).pending()) - sum_sizes(
                r.jobs@,
            ),
    {
        let ghost orig = self.queue.jobs();
        proof {
            lemma_sum_sizes_nonneg(orig);
            self.queue.lemma_total_bound();
            self.queue.lemma_sorted();
        }
        let mut jobs: Vec<JobDescription> = Vec::new();
        let mut est: usize = 0;
        loop
            invariant
                self.queue.wf(),
                self.config.wf(),
                self.config == old(self).config,
                self.url@ == old(self).url@,
                est == sum_sizes(jobs@),
                est + sum_sizes(self.queue.jobs()) == sum_sizes(orig),
                sum_sizes(orig) <= usize::MAX,
                jobs@.len() + self.queue.jobs().len() == orig.len(),
                self.queue.jobs() =~= orig.take(orig.len() - jobs@.len()),
                forall|i: int| 0 <= i < jobs@.len() ==> jobs@[i] == orig[orig.len() - 1 - i],
                forall|i: int, j: int|
                    0 <= i < j < orig.len() ==> item_le(#[trigger] orig[i], #[trigger] orig[j]),
                forall|i: int, j: int| 0 <= i < j < jobs@.len() ==> item_le(jobs@[j], jobs@[i]),
                jobs@.len() <= self.config.max_items_per_batch,
                forall|j: int|
                    0 <= j < jobs@.len() ==> sum_sizes(jobs@.take(j))
                        < self.config.max_bytes_per_batch,
            ensures
                sum_sizes(jobs@) >= self.config.max_bytes_per_batch || jobs@.len()
                    == self.config.max_items_per_batch || self.queue.jobs().len() == 0,
            decreases self.queue.jobs().len(),
        {
            if est >= self.config.max_bytes_per_batch {
                break ;
            }
            if jobs.len() >= self.config.max_items_per_batch {
                break ;
            }
            let ghost before = self.queue.jobs();
            let ghost jobs_before = jobs@;
            match self.queue.pop_largest() {
                None => {
                    break ;
                },
                Some(job) => {
                    proof {
                        lemma_sum_sizes_nonneg(self.queue.jobs());
                        lemma_sum_sizes_push(jobs_before, job.desc);
                        assert(sum_sizes(jobs_before) < self.config.max_bytes_per_batch);
                    }
                    est = est + job.size;
                    jobs.push(job.desc);
                    proof {
                        assert(self.queue.jobs() =~= orig.take(orig.len() - jobs@.len()));
                        assert(jobs@.take(jobs@.len() - 1) =~= jobs_before);
                        assert(job.desc == before[before.len() - 1]);
                        assert(before =~= orig.take(orig.len() - jobs_before.len()));
                        assert forall|j: int|
                            0 <= j < jobs@.len() implies sum_sizes(jobs@.take(j))
                            < self.config.max_bytes_per_batch by {
                            if j < jobs_before.len() {
                                assert(jobs@.take(j) =~= jobs_before.take(j));
                                assert(sum_sizes(jobs_before.take(j))
                                    < self.config.max_bytes_per_batch);
                            } else {
                                assert(jobs@.take(j) =~= jobs_before);
                            }
                        }
                    }
                },
            }
        }
        proof {
            if orig.len() > 0 && jobs@.len() == 0 {
                assert(sum_sizes(jobs@) == 0);
                assert(self.queue.jobs().len() == orig.len());
            }
        }
        TransferToServer { jobs }
    }
}

} // verus!
