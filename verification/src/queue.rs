use vstd::prelude::*;

use crate::job_description::{
    job_eqv, job_le, job_le_exec, job_lt, lemma_job_le_total, lemma_job_le_trans,
    lemma_job_lt_not_eqv, lemma_job_lt_trans, spec_size_estimate, JobDescription,
};

verus! {

/// A pending record paired with its precomputed size estimate.
pub struct UploadJob {
    pub size: usize,
    pub desc: JobDescription,
}

/// Order on queued records: by size estimate, then by the record order.
/// The queue always hands out a greatest record under this order first.
pub open spec fn item_le(a: JobDescription, b: JobDescription) -> bool {
    spec_size_estimate(a) < spec_size_estimate(b) || (spec_size_estimate(a) == spec_size_estimate(
        b,
    ) && job_le(a, b))
}

/// The item order is total.
pub proof fn lemma_item_le_total(a: JobDescription, b: JobDescription)
    ensures
        item_le(a, b) || item_le(b, a),
{
    lemma_job_le_total(a, b);
}

/// The item order is transitive.
pub proof fn lemma_item_le_trans(a: JobDescription, b: JobDescription, c: JobDescription)
    requires
        item_le(a, b),
        item_le(b, c),
    ensures
        item_le(a, c),
{
    if spec_size_estimate(a) == spec_size_estimate(b) && spec_size_estimate(b)
        == spec_size_estimate(c) {
        lemma_job_le_trans(a, b, c);
    }
}

/// The item order is reflexive.
pub proof fn lemma_item_le_refl(a: JobDescription)
    ensures
        item_le(a, a),
{
    lemma_job_le_total(a, a);
}

/// Two records below each other in the item order carry the same content.
pub proof fn lemma_item_le_antisym(a: JobDescription, b: JobDescription)
    requires
        item_le(a, b),
        item_le(b, a),
    ensures
        job_eqv(a, b),
{
    if job_lt(a, b) && job_lt(b, a) {
        lemma_job_lt_trans(a, b, a);
        lemma_job_le_total(a, a);
        lemma_job_lt_not_eqv(a, a);
    }
    if job_lt(a, b) && job_eqv(b, a) {
        lemma_job_lt_not_eqv(a, b);
    }
}

/// A sequence of records sorted ascending under the item order.
pub open spec fn sorted_items(s: Seq<JobDescription>) -> bool {
    forall|i: int, j: int| 0 <= i < j < s.len() ==> item_le(#[trigger] s[i], #[trigger] s[j])
}

/// Two sorted sequences holding the same multiset of records agree
/// position by position, up to record content: the order the queue
/// hands records out in is determined by what is queued, never by the
/// order of insertion.
pub proof fn lemma_sorted_items_unique(a: Seq<JobDescription>, b: Seq<JobDescription>)
    requires
        sorted_items(a),
        sorted_items(b),
        a.to_multiset() == b.to_multiset(),
    ensures
        a.len() == b.len(),
        forall|k: int| 0 <= k < a.len() ==> job_eqv(#[trigger] a[k], b[k]),
    decreases a.len(),
{
    a.to_multiset_ensures();
    b.to_multiset_ensures();
    if a.len() == 0 {
        assert(b.len() == 0);
    } else {
        assert(b.len() == a.len());
        let x = b.last();
        assert(b.contains(x));
        assert(b.to_multiset().contains(x));
        assert(a.to_multiset().contains(x));
        assert(a.contains(x));
        let i = choose|i: int| 0 <= i < a.len() && a[i] == x;
        assert(item_le(a[i], a.last())) by {
            if i == a.len() - 1 {
                lemma_item_le_refl(a[i]);
            }
        }
        assert(a.contains(a.last()));
        assert(a.to_multiset().contains(a.last()));
        assert(b.to_multiset().contains(a.last()));
        assert(b.contains(a.last()));
        let j = choose|j: int| 0 <= j < b.len() && b[j] == a.last();
        assert(item_le(a.last(), b.last())) by {
            if j == b.len() - 1 {
                lemma_item_le_refl(b[j]);
            } else {
                assert(item_le(b[j], b.last()));
            }
        }
        lemma_item_le_antisym(a[i], a.last());
        let a2 = a.remove(i);
        let b2 = b.drop_last();
        assert(b2 =~= b.remove(b.len() - 1));
        assert(a2.to_multiset() =~= a.to_multiset().remove(x));
        assert(b2.to_multiset() =~= b.to_multiset().remove(x));
        assert(sorted_items(a2)) by {
            assert forall|p: int, q: int| 0 <= p < q < a2.len() implies item_le(
                a2[p],
                a2[q],
            ) by {
                if q < i {
                } else if p < i {
                    assert(a2[q] == a[q + 1]);
                } else {
                    assert(a2[p] == a[p + 1] && a2[q] == a[q + 1]);
                }
            }
        }
        assert(sorted_items(b2));
        lemma_sorted_items_unique(a2, b2);
        assert forall|k: int| i <= k < a.len() implies job_eqv(#[trigger] a[k], a.last()) by {
            assert(item_le(a[i], a[k])) by {
                if k == i {
                    lemma_item_le_refl(a[i]);
                }
            }
            assert(item_le(a[k], a.last())) by {
                if k == a.len() - 1 {
                    lemma_item_le_refl(a[k]);
                }
            }
            assert(item_le(a.last(), a[i]));
            lemma_item_le_trans(a.last(), a[i], a[k]);
            lemma_item_le_antisym(a[k], a.last());
        }
        assert forall|k: int| 0 <= k < a.len() implies job_eqv(#[trigger] a[k], b[k]) by {
            if k < i {
                assert(a2[k] == a[k] && b2[k] == b[k]);
                assert(job_eqv(a2[k], b2[k]));
            } else if k == a.len() - 1 {
                assert(b[k] == a[i]);
                assert(job_eqv(a[k], a.last()));
                assert(job_eqv(a[i], a.last()));
            } else {
                assert(a2[k] == a[k + 1] && b2[k] == b[k]);
                assert(job_eqv(a2[k], b2[k]));
                assert(job_eqv(a[k], a.last()) && job_eqv(a[k + 1], a.last()));
            }
        }
    }
}

/// Sum of the size estimates of a sequence of records.
pub open spec fn sum_sizes(s: Seq<JobDescription>) -> int
    decreases s.len(),
{
    if s.len() == 0 {
        0
    } else {
        spec_size_estimate(s.first()) + sum_sizes(s.drop_first())
    }
}

/// Size estimates are nonnegative, so the sum is too.
pub proof fn lemma_sum_sizes_nonneg(s: Seq<JobDescription>)
    ensures
        sum_sizes(s) >= 0,
    decreases s.len(),
{
    if s.len() > 0 {
        lemma_sum_sizes_nonneg(s.drop_first());
    }
}

/// Appending one record adds its size estimate to the sum.
pub proof fn lemma_sum_sizes_push(s: Seq<JobDescription>, d: JobDescription)
    ensures
        sum_sizes(s.push(d)) == sum_sizes(s) + spec_size_estimate(d),
    decreases s.len(),
{
    assert(s.push(d).len() == s.len() + 1);
    assert(sum_sizes(s.push(d)) == spec_size_estimate(s.push(d).first()) + sum_sizes(
        s.push(d).drop_first(),
    ));
    if s.len() == 0 {
        assert(s.push(d).first() == d);
        assert(s.push(d).drop_first() =~= Seq::<JobDescription>::empty());
        assert(sum_sizes(Seq::<JobDescription>::empty()) == 0);
    } else {
        assert(s.push(d).first() == s.first());
        assert(s.push(d).drop_first() =~= s.drop_first().push(d));
        lemma_sum_sizes_push(s.drop_first(), d);
        assert(sum_sizes(s) == spec_size_estimate(s.first()) + sum_sizes(s.drop_first()));
    }
}

/// Inserting one record anywhere adds its size estimate to the sum.
pub proof fn lemma_sum_sizes_insert(s: Seq<JobDescription>, d: JobDescription, p: int)
    requires
        0 <= p <= s.len(),
    ensures
        sum_sizes(s.insert(p, d)) == sum_sizes(s) + spec_size_estimate(d),
    decreases s.len(),
{
    if p == 0 {
        assert(s.insert(0, d).first() == d);
        assert(s.insert(0, d).drop_first() =~= s);
    } else {
        assert(s.insert(p, d).first() == s.first());
        assert(s.insert(p, d).drop_first() =~= s.drop_first().insert(p - 1, d));
        lemma_sum_sizes_insert(s.drop_first(), d, p - 1);
    }
}

/// Removing the last record takes its size estimate off the sum.
pub proof fn lemma_sum_sizes_drop_last(s: Seq<JobDescription>)
    requires
        s.len() > 0,
    ensures
        sum_sizes(s) == sum_sizes(s.drop_last()) + spec_size_estimate(s.last()),
{
    assert(s =~= s.drop_last().push(s.last()));
    lemma_sum_sizes_push(s.drop_last(), s.last());
}

/// Decides `item_le` on two queued items whose cached sizes are correct.
fn item_le_exec(a: &UploadJob, b: &UploadJob) -> (r: bool)
    requires
        a.size == spec_size_estimate(a.desc),
        b.size == spec_size_estimate(b.desc),
    ensures
        r == item_le(a.desc, b.desc),
{
    if a.size < b.size {
        true
    } else if b.size < a.size {
        false
    } else {
        job_le_exec(&a.desc, &b.desc)
    }
}

/// An in-memory, size-aware priority buffer of pending records, kept in
/// ascending item order so the greatest item is always at the end, with a
/// running total of all enqueued size estimates.
pub struct BatchQueue {
    items: Vec<UploadJob>,
    total: usize,
}

impl BatchQueue {
    /// The queued records, in ascending queue order (largest last).
    pub closed spec fn jobs(&self) -> Seq<JobDescription> {
        self.items@.map_values(|u: UploadJob| u.desc)
    }

    /// Internal consistency: each cached size is its record's size
    /// estimate, the items are sorted by the item order, and the running
    /// total equals the sum of all enqueued size estimates.
    pub closed spec fn wf(&self) -> bool {
        &&& forall|i: int|
            0 <= i < self.items@.len() ==> (#[trigger] self.items@[i]).size == spec_size_estimate(
                self.items@[i].desc,
            )
        &&& forall|i: int, j: int|
            0 <= i < j < self.items@.len() ==> item_le(
                self.items@[i].desc,
                self.items@[j].desc,
            )
        &&& self.total == sum_sizes(self.jobs())
    }

    /// An empty queue.
    pub fn new() -> (r: BatchQueue)
        ensures
            r.wf(),
            r.jobs() =~= Seq::<JobDescription>::empty(),
    {
        let r = BatchQueue { items: Vec::new(), total: 0 };
        proof {
            assert(r.jobs() =~= Seq::<JobDescription>::empty());
        }
        r
    }

    /// Number of pending records.
    pub fn len(&self) -> (r: usize)
        ensures
            r == self.jobs().len(),
    {
        self.items.len()
    }

    /// Whether no record is pending.
    pub fn is_empty(&self) -> (r: bool)
        ensures
            r == (self.jobs().len() == 0),
    {
        self.items.len() == 0
    }

    /// The running total of all enqueued size estimates.
    pub fn total_size_estimate(&self) -> (r: usize)
        requires
            self.wf(),
        ensures
            r == sum_sizes(self.jobs()),
    {
        self.total
    }

    /// The running total is a `usize`, so the sum of all enqueued size
    /// estimates fits in one.
    pub proof fn lemma_total_bound(&self)
        requires
            self.wf(),
        ensures
            sum_sizes(self.jobs()) <= usize::MAX,
    {
    }

    /// The queue is sorted ascending under the item order.
    pub proof fn lemma_sorted(&self)
        requires
            self.wf(),
        ensures
            forall|i: int, j: int|
                0 <= i < j < self.jobs().len() ==> item_le(
                    #[trigger] self.jobs()[i],
                    #[trigger] self.jobs()[j],
                ),
    {
    }

    /// Wraps the record into an item and inserts it at its place in the
    /// order, keeping the running total in step.
    pub fn push(&mut self, desc: JobDescription)
        requires
            old(self).wf(),
            sum_sizes(old(self).jobs()) + spec_size_estimate(desc) <= usize::MAX,
        ensures
            final(self).wf(),
            final(self).jobs().len() == old(self).jobs().len() + 1,
            sum_sizes(final(self).jobs()) == sum_sizes(old(self).jobs()) + spec_size_estimate(
                desc,
            ),
            exists|p: int|
                0 <= p <= old(self).jobs().len() && final(self).jobs() =~= old(self).jobs().insert(
                    p,
                    desc,
                ),
    {
        proof {
            lemma_sum_sizes_nonneg(self.jobs());
        }
        let size = desc.size_estimate();
        let item = UploadJob { size, desc };
        let mut p: usize = self.items.len();
        loop
            invariant
                self.wf(),
                item.size == spec_size_estimate(item.desc),
                p <= self.items@.len(),
                forall|k: int|
                    p <= k < self.items@.len() ==> item_le(
                        item.desc,
                        #[trigger] self.items@[k].desc,
                    ),
            ensures
                p == 0 || item_le(self.items@[p as int - 1].desc, item.desc),
            decreases p,
        {
            if p == 0 {
                break ;
            }
            if item_le_exec(&self.items[p - 1], &item) {
                break ;
            }
            proof {
                lemma_item_le_total(self.items@[p - 1].desc, item.desc);
            }
            p -= 1;
        }
        let ghost old_items = self.items@;
        let ghost old_jobs = self.jobs();
        let ghost pp = p as int;
        self.items.insert(p, item);
        self.total = self.total + size;
        proof {
            assert(self.items@ =~= old_items.insert(pp, item));
            assert(self.jobs() =~= old_jobs.insert(pp, desc));
            lemma_sum_sizes_insert(old_jobs, desc, pp);
            assert forall|i: int| 0 <= i < pp implies item_le(
                old_items[i].desc,
                item.desc,
            ) by {
                if i < pp - 1 {
                    lemma_item_le_trans(old_items[i].desc, old_items[pp - 1].desc, item.desc);
                }
            }
            assert forall|i: int, j: int|
                0 <= i < j < self.items@.len() implies item_le(
                self.items@[i].desc,
                self.items@[j].desc,
            ) by {
                if i < pp && j == pp {
                } else if i == pp && j > pp {
                } else if i < pp && j > pp {
                    assert(item_le(old_items[i].desc, old_items[j - 1].desc));
                }
            }
        }
    }

    /// Removes and returns the greatest pending item, decrementing the
    /// running total; `None` on an empty queue.
    pub fn pop_largest(&mut self) -> (r: Option<UploadJob>)
        requires
            old(self).wf(),
        ensures
            final(self).wf(),
            old(self).jobs().len() == 0 ==> r is None && final(self).jobs() =~= old(self).jobs(),
            old(self).jobs().len() > 0 ==> (r matches Some(it) && it.desc == old(
                self,
            ).jobs().last() && it.size == spec_size_estimate(it.desc) && final(self).jobs() =~= old(
                self,
            ).jobs().drop_last() && sum_sizes(final(self).jobs()) == sum_sizes(old(self).jobs())
                - it.size && (forall|i: int|
                0 <= i < final(self).jobs().len() ==> item_le(
                    #[trigger] final(self).jobs()[i],
                    it.desc,
                ))),
    {
        let ghost old_jobs = self.jobs();
        match self.items.pop() {
            None => {
                proof {
                    assert(self.jobs() =~= old_jobs);
                }
                None
            },
            Some(it) => {
                proof {
                    assert(old_jobs.len() > 0);
                    assert(self.jobs() =~= old_jobs.drop_last());
                    lemma_sum_sizes_drop_last(old_jobs);
                    lemma_sum_sizes_nonneg(old_jobs.drop_last());
                }
                self.total = self.total - it.size;
                Some(it)
            },
        }
    }
}

} // verus!
