use vstd::prelude::*;

use crate::digest::Digest;
use crate::lex::{chars_lt, lemma_chars_lt_trans, lemma_chars_total};
use vstd::multiset::Multiset;
use vstd::string::StringExecFns;

verus! {

/// Wall-clock time spent on one attempt, in whole seconds plus nanoseconds.
#[derive(Clone, Copy, Debug, PartialEq, Eq, Structural)]
pub struct Runtime {
    pub secs: u64,
    pub nanos: u32,
}

/// The outcome of one solver attempt: a solution, a proof that none
/// exists, or an aborted attempt.
#[derive(Debug)]
pub enum JobResult {
    Valid { score: u32, solution: String, sdigest: Digest },
    Infeasible,
    Timeout,
}

/// The outcome of attempting one problem instance, ready to be queued
/// for upload.
#[derive(Debug)]
pub struct JobDescription {
    pub idigest: Digest,
    pub result: JobResult,
    pub runtime: Option<Runtime>,
}

/// Rank of a result variant, for the total order on results.
pub open spec fn result_rank(r: JobResult) -> int {
    match r {
        JobResult::Valid { .. } => 0,
        JobResult::Infeasible => 1,
        JobResult::Timeout => 2,
    }
}

/// Strict total order on results: by variant rank, then by score,
/// solution text and solution digest for two solutions.
pub open spec fn result_lt(a: JobResult, b: JobResult) -> bool {
    result_rank(a) < result_rank(b) || (result_rank(a) == result_rank(b) && match (a, b) {
        (
            JobResult::Valid { score: sa, solution: ta, sdigest: da },
            JobResult::Valid { score: sb, solution: tb, sdigest: db },
        ) => sa < sb || (sa == sb && (chars_lt(ta@, tb@) || (ta@ == tb@ && chars_lt(da@, db@)))),
        _ => false,
    })
}

/// Two results carry the same content.
pub open spec fn result_eqv(a: JobResult, b: JobResult) -> bool {
    match (a, b) {
        (
            JobResult::Valid { score: sa, solution: ta, sdigest: da },
            JobResult::Valid { score: sb, solution: tb, sdigest: db },
        ) => sa == sb && ta@ == tb@ && da@ == db@,
        (JobResult::Infeasible, JobResult::Infeasible) => true,
        (JobResult::Timeout, JobResult::Timeout) => true,
        _ => false,
    }
}

/// Strict order on optional runtimes: absent sorts first, then seconds,
/// then nanoseconds.
pub open spec fn runtime_lt(a: Option<Runtime>, b: Option<Runtime>) -> bool {
    match (a, b) {
        (Option::None, Option::Some(_)) => true,
        (Option::Some(x), Option::Some(y)) => x.secs < y.secs || (x.secs == y.secs && x.nanos
            < y.nanos),
        _ => false,
    }
}

/// Strict total order on records: by instance digest, then result, then
/// runtime. This is the deterministic tie-break order of the batch queue.
pub open spec fn job_lt(a: JobDescription, b: JobDescription) -> bool {
    chars_lt(a.idigest@, b.idigest@) || (a.idigest@ == b.idigest@ && (result_lt(a.result, b.result)
        || (result_eqv(a.result, b.result) && runtime_lt(a.runtime, b.runtime))))
}

/// Two records carry the same content.
pub open spec fn job_eqv(a: JobDescription, b: JobDescription) -> bool {
    a.idigest@ == b.idigest@ && result_eqv(a.result, b.result) && a.runtime == b.runtime
}

/// Reflexive closure of `job_lt`.
pub open spec fn job_le(a: JobDescription, b: JobDescription) -> bool {
    job_lt(a, b) || job_eqv(a, b)
}

/// The transport cost proxy of a record: a fixed overhead of 50 units,
/// plus the character length of the solution text for a solution.
pub open spec fn spec_size_estimate(d: JobDescription) -> int {
    50 + match d.result {
        JobResult::Valid { solution, .. } => solution@.len() as int,
        _ => 0,
    }
}

/// The record order is total: two records are ordered or equivalent.
pub proof fn lemma_job_le_total(a: JobDescription, b: JobDescription)
    ensures
        job_le(a, b) || job_le(b, a),
{
    lemma_chars_total(a.idigest@, b.idigest@);
    if a.idigest@ == b.idigest@ {
        lemma_result_total(a.result, b.result);
    }
}

/// The result order is total.
pub proof fn lemma_result_total(a: JobResult, b: JobResult)
    ensures
        result_lt(a, b) || result_lt(b, a) || result_eqv(a, b),
{
    if result_rank(a) == result_rank(b) {
        match (a, b) {
            (
                JobResult::Valid { score: sa, solution: ta, sdigest: da },
                JobResult::Valid { score: sb, solution: tb, sdigest: db },
            ) => {
                lemma_chars_total(ta@, tb@);
                lemma_chars_total(da@, db@);
            },
            _ => {},
        }
    }
}

/// The strict record order is transitive.
pub proof fn lemma_job_lt_trans(a: JobDescription, b: JobDescription, c: JobDescription)
    requires
        job_lt(a, b),
        job_lt(b, c),
    ensures
        job_lt(a, c),
{
    if chars_lt(a.idigest@, b.idigest@) && chars_lt(b.idigest@, c.idigest@) {
        lemma_chars_lt_trans(a.idigest@, b.idigest@, c.idigest@);
    } else if a.idigest@ == b.idigest@ && b.idigest@ == c.idigest@ {
        lemma_result_lt_trans(a.result, b.result, c.result);
    }
}

/// The strict result order is transitive.
pub proof fn lemma_result_lt_trans(a: JobResult, b: JobResult, c: JobResult)
    requires
        result_lt(a, b) || result_eqv(a, b),
        result_lt(b, c) || result_eqv(b, c),
    ensures
        result_lt(a, c) || (result_eqv(a, b) && result_eqv(b, c)),
{
    match (a, b, c) {
        (
            JobResult::Valid { score: sa, solution: ta, sdigest: da },
            JobResult::Valid { score: sb, solution: tb, sdigest: db },
            JobResult::Valid { score: sc, solution: tc, sdigest: dc },
        ) => {
            if chars_lt(ta@, tb@) && chars_lt(tb@, tc@) {
                lemma_chars_lt_trans(ta@, tb@, tc@);
            }
            if chars_lt(da@, db@) && chars_lt(db@, dc@) {
                lemma_chars_lt_trans(da@, db@, dc@);
            }
        },
        _ => {},
    }
}

/// The strict record order never holds between records of equal content.
pub proof fn lemma_job_lt_not_eqv(a: JobDescription, b: JobDescription)
    requires
        job_eqv(a, b),
    ensures
        !job_lt(a, b),
{
    crate::lex::lemma_chars_irrefl(a.idigest@);
    match (a.result, b.result) {
        (
            JobResult::Valid { score: sa, solution: ta, sdigest: da },
            JobResult::Valid { score: sb, solution: tb, sdigest: db },
        ) => {
            crate::lex::lemma_chars_irrefl(ta@);
            crate::lex::lemma_chars_irrefl(da@);
        },
        _ => {},
    }
}

/// `job_le` is transitive.
pub proof fn lemma_job_le_trans(a: JobDescription, b: JobDescription, c: JobDescription)
    requires
        job_le(a, b),
        job_le(b, c),
    ensures
        job_le(a, c),
{
    if job_lt(a, b) && job_lt(b, c) {
        lemma_job_lt_trans(a, b, c);
    }
}

/// All texts ordered by ascending character length.
pub open spec fn sorted_by_len(s: Seq<Seq<char>>) -> bool {
    forall|i: int, j: int| 0 <= i < j < s.len() ==> (#[trigger] s[i]).len() <= (#[trigger] s[j]).len()
}

/// The texts joined with a single newline between entries.
pub open spec fn join_newline(s: Seq<Seq<char>>) -> Seq<char>
    decreases s.len(),
{
    if s.len() == 0 {
        Seq::empty()
    } else if s.len() == 1 {
        s[0]
    } else {
        s[0] + seq!['\n'] + join_newline(s.drop_first())
    }
}

/// Appending one more text appends one newline and the text.
pub proof fn lemma_join_newline_push(s: Seq<Seq<char>>, x: Seq<char>)
    requires
        s.len() >= 1,
    ensures
        join_newline(s.push(x)) == join_newline(s) + seq!['\n'] + x,
    decreases s.len(),
{
    if s.len() == 1 {
        assert(s.push(x).len() == 2);
        assert(s.push(x)[0] == s[0]);
        assert(s.push(x).drop_first() =~= seq![x]);
        assert(join_newline(seq![x]) == seq![x][0]);
    } else {
        assert(s.push(x)[0] == s[0]);
        assert(s.push(x).drop_first() =~= s.drop_first().push(x));
        lemma_join_newline_push(s.drop_first(), x);
        assert((s[0] + seq!['\n'] + (join_newline(s.drop_first()) + seq!['\n'] + x)) =~= ((s[0]
            + seq!['\n'] + join_newline(s.drop_first())) + seq!['\n'] + x));
    }
}

/// The view of each text in a sequence of texts.
pub open spec fn text_views(v: Seq<String>) -> Seq<Seq<char>> {
    v.map_values(|s: String| s@)
}

/// `pi` maps each output position to a distinct input position, the
/// output reads the input through `pi`, and texts of equal length keep
/// their original relative order.
pub open spec fn stable_len_perm(r: Seq<Seq<char>>, v: Seq<Seq<char>>, pi: Seq<int>) -> bool {
    &&& pi.len() == r.len()
    &&& r.len() == v.len()
    &&& forall|k: int| 0 <= k < pi.len() ==> 0 <= #[trigger] pi[k] < v.len()
    &&& forall|a: int, b: int| 0 <= a < b < pi.len() ==> pi[a] != pi[b]
    &&& forall|k: int| 0 <= k < r.len() ==> #[trigger] r[k] == v[pi[k]]
    &&& forall|a: int, b: int|
        0 <= a < b < r.len() && (#[trigger] r[a]).len() == (#[trigger] r[b]).len() ==> pi[a]
            < pi[b]
}

/// Sorts texts by ascending character length. The first text of minimal
/// length among the remainder is selected each round, so texts of equal
/// length keep their original relative order, as the permutation in the
/// contract states.
pub fn sort_by_text_len(v: Vec<String>) -> (r: Vec<String>)
    ensures
        r@.len() == v@.len(),
        sorted_by_len(r@.map_values(|s: String| s@)),
        r@.map_values(|s: String| s@).to_multiset() == v@.map_values(|s: String| s@).to_multiset(),
        exists|pi: Seq<int>|
            #[trigger] stable_len_perm(text_views(r@), text_views(v@), pi),
{
    broadcast use vstd::seq_lib::group_to_multiset_ensures;

    let ghost orig = v@.map_values(|s: String| s@);
    let mut rest = v;
    let mut out: Vec<String> = Vec::new();
    let ghost mut src: Seq<int> = Seq::new(orig.len(), |k: int| k);
    let ghost mut opi: Seq<int> = Seq::empty();
    proof {
        assert(out@.map_values(|s: String| s@).to_multiset().add(
            rest@.map_values(|s: String| s@).to_multiset(),
        ) =~= orig.to_multiset());
    }
    while rest.len() > 0
        invariant
            out@.len() + rest@.len() == orig.len(),
            out@.map_values(|s: String| s@).to_multiset().add(
                rest@.map_values(|s: String| s@).to_multiset(),
            ) == orig.to_multiset(),
            sorted_by_len(out@.map_values(|s: String| s@)),
            forall|o: int, k: int|
                0 <= o < out@.len() && 0 <= k < rest@.len() ==> (#[trigger] out@[o])@.len() <= (
                #[trigger] rest@[k])@.len(),
            src.len() == rest@.len(),
            opi.len() == out@.len(),
            forall|k: int|
                0 <= k < src.len() ==> 0 <= #[trigger] src[k] < orig.len() && orig[src[k]]
                    == rest@[k]@,
            forall|a: int, b: int| 0 <= a < b < src.len() ==> src[a] < src[b],
            forall|k: int|
                0 <= k < opi.len() ==> 0 <= #[trigger] opi[k] < orig.len() && orig[opi[k]]
                    == out@[k]@,
            forall|a: int, b: int| 0 <= a < b < opi.len() ==> opi[a] != opi[b],
            forall|o: int, k: int| 0 <= o < opi.len() && 0 <= k < src.len() ==> opi[o] != src[k],
            forall|a: int, b: int|
                0 <= a < b < opi.len() && (#[trigger] out@[a])@.len() == (#[trigger] out@[b])@.len()
                    ==> opi[a] < opi[b],
            forall|o: int, k: int|
                0 <= o < opi.len() && 0 <= k < src.len() && (#[trigger] out@[o])@.len() == (
                #[trigger] rest@[k])@.len() ==> opi[o] < src[k],
        decreases rest@.len(),
    {
        let mut m: usize = 0;
        let mut i: usize = 1;
        while i < rest.len()
            invariant
                rest@.len() > 0,
                m < i,
                1 <= i <= rest@.len(),
                forall|k: int| 0 <= k < i ==> (#[trigger] rest@[m as int])@.len() <= rest@[k]@.len(),
                forall|k: int| 0 <= k < m ==> (#[trigger] rest@[m as int])@.len() < rest@[k]@.len(),
            decreases rest@.len() - i,
        {
            if rest[i].as_str().unicode_len() < rest[m].as_str().unicode_len() {
                m = i;
            }
            i += 1;
        }
        let ghost out_before = out@;
        let ghost rest_before = rest@;
        let ghost src_before = src;
        let ghost opi_before = opi;
        let s = rest.remove(m);
        out.push(s);
        proof {
            opi = opi.push(src[m as int]);
            src = src.remove(m as int);
            assert(forall|a: int, b: int|
                0 <= a < b < src_before.len() && a != b ==> src_before[a] != src_before[b]);
            assert forall|o: int, k: int|
                0 <= o < opi.len() && 0 <= k < src.len() implies opi[o] != src[k] by {
                if o < opi_before.len() {
                } else {
                    if k < m {
                        assert(src[k] == src_before[k]);
                    } else {
                        assert(src[k] == src_before[k + 1]);
                    }
                }
            }
            assert forall|o: int, k: int|
                0 <= o < opi.len() && 0 <= k < src.len() && (out@[o])@.len() == (rest@[k])@.len()
                    implies opi[o] < src[k] by {
                if o < opi_before.len() {
                    if k < m {
                        assert(rest@[k]@ == rest_before[k]@);
                        assert(src[k] == src_before[k]);
                    } else {
                        assert(rest@[k]@ == rest_before[k + 1]@);
                        assert(src[k] == src_before[k + 1]);
                    }
                } else {
                    // the new output entry is the first minimal text, so a
                    // remaining text of the same length stood after it
                    assert(out@[o]@ == rest_before[m as int]@);
                    if k < m {
                        assert(rest_before[m as int]@.len() < rest_before[k]@.len());
                        assert(rest@[k]@ == rest_before[k]@);
                        assert(false);
                    } else {
                        assert(rest@[k]@ == rest_before[k + 1]@);
                        assert(src[k] == src_before[k + 1]);
                        assert(src_before[m as int] < src_before[k + 1]);
                    }
                }
            }
            let f = |s: String| s@;
            assert(out@ =~= out_before.push(s));
            assert(out@.map_values(f) =~= out_before.map_values(f).push(s@));
            assert(rest@ =~= rest_before.remove(m as int));
            assert(rest@.map_values(f) =~= rest_before.map_values(f).remove(m as int));
            out_before.map_values(f).to_multiset_ensures();
            rest_before.map_values(f).to_multiset_ensures();
            assert(rest_before.map_values(f).remove(m as int).to_multiset() =~= rest_before.map_values(
                f,
            ).to_multiset().remove(rest_before.map_values(f)[m as int]));
            assert(rest_before.map_values(f)[m as int] == s@);
            assert(rest_before.map_values(f).contains(s@));
            assert(rest_before.map_values(f).to_multiset().contains(s@));
            assert(out@.map_values(f).to_multiset().add(rest@.map_values(f).to_multiset())
                =~= out_before.map_values(f).to_multiset().add(
                rest_before.map_values(f).to_multiset(),
            ));
        }
    }
    proof {
        assert(out@.map_values(|s: String| s@).to_multiset().add(
            rest@.map_values(|s: String| s@).to_multiset(),
        ) == orig.to_multiset());
        assert(rest@.map_values(|s: String| s@).to_multiset() =~= Multiset::<Seq<char>>::empty());
        assert(out@.map_values(|s: String| s@).to_multiset() =~= orig.to_multiset());
        assert(stable_len_perm(text_views(out@), text_views(v@), opi));
    }
    out
}

/// Joins texts with a single newline between entries.
pub fn join_with_newlines(v: &Vec<String>) -> (r: String)
    ensures
        r@ == join_newline(v@.map_values(|s: String| s@)),
{
    let ghost views = v@.map_values(|s: String| s@);
    let mut out = String::new();
    let mut i: usize = 0;
    proof {
        assert(views.take(0) =~= Seq::<Seq<char>>::empty());
    }
    while i < v.len()
        invariant
            i <= v@.len(),
            views == v@.map_values(|s: String| s@),
            out@ == join_newline(views.take(i as int)),
        decreases v@.len() - i,
    {
        if i > 0 {
            out.append("\n");
        }
        out.append(v[i].as_str());
        proof {
            reveal_strlit("\n");
            assert("\n"@ =~= seq!['\n']);
            assert(views.take(i + 1) =~= views.take(i as int).push(views[i as int]));
            if i > 0 {
                lemma_join_newline_push(views.take(i as int), views[i as int]);
                assert(out@ =~= join_newline(views.take(i as int)) + seq!['\n'] + views[i as int]);
            } else {
                assert(join_newline(views.take(0int)) =~= Seq::<char>::empty());
                assert(out@ =~= views[0]);
                assert(join_newline(views.take(1int)) == views.take(1int)[0]);
                assert(views.take(1int)[0] == views[0]);
            }
        }
        i += 1;
    }
    proof {
        assert(views.take(v@.len() as int) =~= views);
    }
    out
}

/// Rank of a result variant, in executable code.
fn result_rank_exec(r: &JobResult) -> (n: u8)
    ensures
        n as int == result_rank(*r),
{
    match r {
        JobResult::Valid { .. } => 0,
        JobResult::Infeasible => 1,
        JobResult::Timeout => 2,
    }
}

/// Decides the strict order `chars_lt` on two string slices.
fn str_lt_exec(a: &str, b: &str) -> (r: bool)
    ensures
        r == chars_lt(a@, b@),
{
    let le_ab = crate::lex::str_le(a, b);
    let le_ba = crate::lex::str_le(b, a);
    proof {
        if chars_lt(a@, b@) && chars_lt(b@, a@) {
            lemma_chars_lt_trans(a@, b@, a@);
            crate::lex::lemma_chars_irrefl(a@);
        }
        if a@ == b@ && chars_lt(a@, b@) {
            crate::lex::lemma_chars_irrefl(a@);
        }
    }
    le_ab && !le_ba
}

/// Decides `job_le`, the queue's tie-break order, on two records.
pub fn job_le_exec(a: &JobDescription, b: &JobDescription) -> (r: bool)
    ensures
        r == job_le(*a, *b),
{
    if str_lt_exec(a.idigest.as_str(), b.idigest.as_str()) {
        return true;
    }
    if str_lt_exec(b.idigest.as_str(), a.idigest.as_str()) {
        return false;
    }
    proof {
        lemma_chars_total(a.idigest@, b.idigest@);
    }
    let ra = result_rank_exec(&a.result);
    let rb = result_rank_exec(&b.result);
    if ra < rb {
        return true;
    }
    if rb < ra {
        return false;
    }
    match (&a.result, &b.result) {
        (
            JobResult::Valid { score: sa, solution: ta, sdigest: da },
            JobResult::Valid { score: sb, solution: tb, sdigest: db },
        ) => {
            if sa < sb {
                return true;
            }
            if sb < sa {
                return false;
            }
            if str_lt_exec(ta.as_str(), tb.as_str()) {
                return true;
            }
            if str_lt_exec(tb.as_str(), ta.as_str()) {
                return false;
            }
            proof {
                lemma_chars_total(ta@, tb@);
            }
            if str_lt_exec(da.as_str(), db.as_str()) {
                return true;
            }
            if str_lt_exec(db.as_str(), da.as_str()) {
                return false;
            }
            proof {
                lemma_chars_total(da@, db@);
            }
        },
        _ => {},
    }
    match (&a.runtime, &b.runtime) {
        (Option::None, Option::Some(_)) => true,
        (Option::Some(_), Option::None) => false,
        (Option::None, Option::None) => true,
        (Option::Some(x), Option::Some(y)) => {
            if x.secs < y.secs {
                true
            } else if y.secs < x.secs {
                false
            } else {
                x.nanos <= y.nanos
            }
        },
    }
}

impl Clone for JobResult {
    fn clone(&self) -> (r: Self)
        ensures
            r == *self,
    {
        match self {
            JobResult::Valid { score, solution, sdigest } => JobResult::Valid {
                score: *score,
                solution: solution.clone(),
                sdigest: sdigest.clone(),
            },
            JobResult::Infeasible => JobResult::Infeasible,
            JobResult::Timeout => JobResult::Timeout,
        }
    }
}

impl Clone for JobDescription {
    fn clone(&self) -> (r: Self)
        ensures
            r == *self,
    {
        JobDescription {
            idigest: self.idigest.clone(),
            result: self.result.clone(),
            runtime: self.runtime,
        }
    }
}

impl PartialEq for JobResult {
    fn eq(&self, other: &Self) -> (r: bool) {
        match (self, other) {
            (
                JobResult::Valid { score: sa, solution: ta, sdigest: da },
                JobResult::Valid { score: sb, solution: tb, sdigest: db },
            ) => *sa == *sb && ta.eq(tb) && da.eq(db),
            (JobResult::Infeasible, JobResult::Infeasible) => true,
            (JobResult::Timeout, JobResult::Timeout) => true,
            _ => false,
        }
    }
}

impl Eq for JobResult {

}

impl vstd::std_specs::cmp::PartialEqSpecImpl for JobResult {
    open spec fn obeys_eq_spec() -> bool {
        true
    }

    open spec fn eq_spec(&self, other: &Self) -> bool {
        result_eqv(*self, *other)
    }
}

impl PartialEq for JobDescription {
    fn eq(&self, other: &Self) -> (r: bool) {
        self.idigest.eq(&other.idigest) && self.result.eq(&other.result) && match (
            &self.runtime,
            &other.runtime,
        ) {
            (Option::Some(x), Option::Some(y)) => x.secs == y.secs && x.nanos == y.nanos,
            (Option::None, Option::None) => true,
            _ => false,
        }
    }
}

impl Eq for JobDescription {

}

impl vstd::std_specs::cmp::PartialEqSpecImpl for JobDescription {
    open spec fn obeys_eq_spec() -> bool {
        true
    }

    open spec fn eq_spec(&self, other: &Self) -> bool {
        job_eqv(*self, *other)
    }
}

impl JobDescription {
    /// Builds a solution record. The score is the number of independent
    /// structures; the rendered texts are sorted by ascending character
    /// length (ties keep their original relative order) and joined with
    /// single newlines; the caller supplies the canonical digest of the
    /// solution's logical content.
    pub fn valid(
        idigest: Digest,
        trees: Vec<String>,
        sdigest: Digest,
        runtime: Option<Runtime>,
    ) -> (r: JobDescription)
        requires
            trees@.len() <= u32::MAX,
        ensures
            r.idigest@ == idigest@,
            r.runtime == runtime,
            (r.result matches JobResult::Valid { score, solution, sdigest: sd } && score == trees@.len()
                && sd@ == sdigest@ && (exists|sorted: Seq<Seq<char>>, pi: Seq<int>|
                #[trigger] sorted_by_len(sorted) && #[trigger] stable_len_perm(
                    sorted,
                    text_views(trees@),
                    pi,
                ) && solution@ == join_newline(sorted))),
    {
        let ghost tv = trees@.map_values(|s: String| s@);
        let score = trees.len() as u32;
        let newick = sort_by_text_len(trees);
        let solution = join_with_newlines(&newick);
        let ghost w = newick@.map_values(|s: String| s@);
        proof {
            let pi = choose|pi: Seq<int>| #[trigger] stable_len_perm(text_views(newick@), text_views(trees@), pi);
            assert(w == text_views(newick@) && tv == text_views(trees@));
            assert(sorted_by_len(w) && stable_len_perm(w, tv, pi) && solution@ == join_newline(w));
        }
        JobDescription { idigest, runtime, result: JobResult::Valid { score, solution, sdigest } }
    }

    /// A timed-out attempt; the elapsed time is always known here.
    pub fn timeout(idigest: Digest, runtime: Runtime) -> (r: JobDescription)
        ensures
            r.idigest@ == idigest@,
            r.result == JobResult::Timeout,
            r.runtime == Some(runtime),
    {
        JobDescription { idigest, result: JobResult::Timeout, runtime: Some(runtime) }
    }

    /// A proof that the instance has no valid solution.
    pub fn infeasible(idigest: Digest, runtime: Option<Runtime>) -> (r: JobDescription)
        ensures
            r.idigest@ == idigest@,
            r.result == JobResult::Infeasible,
            r.runtime == runtime,
    {
        JobDescription { idigest, result: JobResult::Infeasible, runtime }
    }

    /// The transport cost proxy used for batching decisions.
    pub fn size_estimate(&self) -> (r: usize)
        requires
            spec_size_estimate(*self) <= usize::MAX,
        ensures
            r == spec_size_estimate(*self),
    {
        50 + match &self.result {
            JobResult::Valid { solution, .. } => solution.as_str().unicode_len(),
            _ => 0,
        }
    }
}

} // verus!
