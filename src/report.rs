//! The run's final report, merged from the outcomes of all sessions.
use crate::partition::{concat, lemma_partition_complete, shares_of};
use crate::session::{Phase, SessionModel, SessionOutcome};
use vstd::prelude::*;

verus! {

/// How many files a run found, uploaded, and failed to upload.
#[derive(Debug, Clone, Copy, PartialEq, Eq, Structural)]
pub struct UploadReport {
    pub found: usize,
    pub uploaded: usize,
    pub failed: usize,
}

/// Files uploaded by all the sessions together.
pub open spec fn sum_uploaded(outcomes: Seq<SessionOutcome>) -> nat
    decreases outcomes.len(),
{
    if outcomes.len() == 0 {
        0
    } else {
        sum_uploaded(outcomes.drop_last()) + outcomes.last().uploaded as nat
    }
}

/// Files failed by all the sessions together.
pub open spec fn sum_failed(outcomes: Seq<SessionOutcome>) -> nat
    decreases outcomes.len(),
{
    if outcomes.len() == 0 {
        0
    } else {
        sum_failed(outcomes.drop_last()) + outcomes.last().failed@.len()
    }
}

/// The report of a run that found `found` files and ended with these session outcomes.
pub open spec fn report_of(found: nat, outcomes: Seq<SessionOutcome>) -> (nat, nat, nat) {
    (found, sum_uploaded(outcomes), sum_failed(outcomes))
}

/// Merges the outcomes of all sessions into the run's report.
pub fn aggregate(found: usize, outcomes: &Vec<SessionOutcome>) -> (r: UploadReport)
    requires
        sum_uploaded(outcomes@) + sum_failed(outcomes@) <= usize::MAX,
    ensures
        (r.found as nat, r.uploaded as nat, r.failed as nat) == report_of(found as nat, outcomes@),
{
    let mut uploaded: usize = 0;
    let mut failed: usize = 0;
    let mut i: usize = 0;
    while i < outcomes.len()
        invariant
            i <= outcomes@.len(),
            sum_uploaded(outcomes@) + sum_failed(outcomes@) <= usize::MAX,
            uploaded == sum_uploaded(outcomes@.take(i as int)),
            failed == sum_failed(outcomes@.take(i as int)),
        decreases outcomes@.len() - i,
    {
        proof {
            assert(outcomes@.take(i + 1).drop_last() == outcomes@.take(i as int));
            lemma_sums_monotone(outcomes@, (i + 1) as nat);
        }
        uploaded = uploaded + outcomes[i].uploaded;
        failed = failed + outcomes[i].failed.len();
        i = i + 1;
    }
    assert(outcomes@.take(outcomes@.len() as int) == outcomes@);
    UploadReport { found, uploaded, failed }
}

/// The sums over a prefix of the outcomes are at most the sums over all of them.
proof fn lemma_sums_monotone(outcomes: Seq<SessionOutcome>, k: nat)
    requires
        k <= outcomes.len(),
    ensures
        sum_uploaded(outcomes.take(k as int)) <= sum_uploaded(outcomes),
        sum_failed(outcomes.take(k as int)) <= sum_failed(outcomes),
    decreases outcomes.len(),
{
    if k < outcomes.len() {
        let d = outcomes.drop_last();
        assert(outcomes.take(k as int) == d.take(k as int));
        lemma_sums_monotone(d, k);
    } else {
        assert(outcomes.take(k as int) == outcomes);
    }
}

/// Sum of the lengths of some sequences.
pub open spec fn sum_lens<T>(parts: Seq<Seq<T>>) -> nat
    decreases parts.len(),
{
    if parts.len() == 0 {
        0
    } else {
        sum_lens(parts.drop_last()) + parts.last().len()
    }
}

proof fn lemma_concat_len<T>(parts: Seq<Seq<T>>)
    ensures
        concat(parts).len() == sum_lens(parts),
    decreases parts.len(),
{
    if parts.len() > 0 {
        lemma_concat_len(parts.drop_last());
    }
}

proof fn lemma_sums_match<T>(outcomes: Seq<SessionOutcome>, parts: Seq<Seq<T>>)
    requires
        outcomes.len() == parts.len(),
        forall|i: int|
            0 <= i < parts.len() ==> (#[trigger] outcomes[i]).uploaded + outcomes[i].failed@.len()
                == parts[i].len(),
    ensures
        sum_uploaded(outcomes) + sum_failed(outcomes) == sum_lens(parts),
    decreases parts.len(),
{
    if parts.len() > 0 {
        let n = parts.len() - 1;
        assert(outcomes[n].uploaded + outcomes[n].failed@.len() == parts[n].len());
        lemma_sums_match(outcomes.drop_last(), parts.drop_last());
    }
}

/// When the files are split among the workers and every session settles each
/// file of its share, as uploaded or as failed, the report's uploaded and failed
/// counts add up to the number of files found.
pub proof fn lemma_report_balanced<T>(tasks: Seq<T>, workers: nat, outcomes: Seq<SessionOutcome>)
    requires
        workers > 0,
        outcomes.len() == workers,
        forall|i: int|
            0 <= i < workers ==> (#[trigger] outcomes[i]).uploaded + outcomes[i].failed@.len()
                == shares_of(tasks, workers)[i].len(),
    ensures
        ({
            let (found, uploaded, failed) = report_of(tasks.len(), outcomes);
            uploaded + failed == found
        }),
{
    lemma_partition_complete(tasks, workers);
    lemma_concat_len(shares_of(tasks, workers));
    lemma_sums_match(outcomes, shares_of(tasks, workers));
}

/// A whole run balances: when every session planned over the files has finished
/// and handed in its outcome, the report's uploaded and failed counts add up to
/// the number of files found.
pub proof fn lemma_run_balanced<T>(
    tasks: Seq<T>,
    workers: nat,
    finished: Seq<SessionModel>,
    outcomes: Seq<SessionOutcome>,
)
    requires
        workers > 0,
        finished.len() == workers,
        outcomes.len() == workers,
        forall|i: int|
            0 <= i < workers ==> {
                &&& (#[trigger] finished[i]).wf()
                &&& finished[i].phase == Phase::Done
                &&& finished[i].share.len() == shares_of(tasks, workers)[i].len()
                &&& outcomes[i].uploaded == finished[i].uploaded
                &&& outcomes[i].failed@.len() == finished[i].failed.len()
            },
    ensures
        ({
            let (found, uploaded, failed) = report_of(tasks.len(), outcomes);
            uploaded + failed == found
        }),
{
    assert forall|i: int| 0 <= i < workers implies (#[trigger] outcomes[i]).uploaded
        + outcomes[i].failed@.len() == shares_of(tasks, workers)[i].len() by {
        assert(finished[i].wf());
    }
    lemma_report_balanced(tasks, workers, outcomes);
}

/// The report of a run that found nothing.
pub fn empty_report() -> (r: UploadReport)
    ensures
        r.found == 0 && r.uploaded == 0 && r.failed == 0,
{
    UploadReport { found: 0, uploaded: 0, failed: 0 }
}

} // verus!
