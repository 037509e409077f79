//! What the status and the metrics of a workflow say of its runs.
use vstd::prelude::*;
use vstd::string::*;

use crate::cache::{CachedRun, Timestamp};
use crate::github::{RunCounts, RunStatus};
use crate::runs;

verus! {

/// Whether an optional field says a word.
pub open spec fn says(field: Option<String>, word: Seq<char>) -> bool {
    match field {
        Some(value) => value@ == word,
        None => false,
    }
}

/// The runs that are over and were created at a point in time or later.
pub open spec fn over_since(list: Seq<CachedRun>, since: int) -> Seq<CachedRun> {
    list.filter(|run: CachedRun| says(run.status, "completed"@) && run.created_at >= since)
}

/// Whether counts are those of some runs: all of them, those that ended well, and those that
/// failed.
pub open spec fn counts_of(counts: RunCounts, list: Seq<CachedRun>) -> bool {
    &&& counts.total == list.len()
    &&& counts.passed == list.filter(
        |run: CachedRun| says(run.conclusion, "success"@),
    ).len()
    &&& counts.failed == list.filter(|run: CachedRun| says(run.conclusion, "failure"@)).len()
}

proof fn lemma_tally_filters(list: Seq<CachedRun>, since: int)
    ensures
        runs::tally(list, since, None) == over_since(list, since).len(),
        runs::tally(list, since, Some("success"@)) == over_since(list, since).filter(
            |run: CachedRun| says(run.conclusion, "success"@),
        ).len(),
        runs::tally(list, since, Some("failure"@)) == over_since(list, since).filter(
            |run: CachedRun| says(run.conclusion, "failure"@),
        ).len(),
    decreases list.len(),
{
    reveal(Seq::filter);
    if list.len() > 0 {
        let front = list.drop_last();
        lemma_tally_filters(front, since);
        let before = over_since(front, since);
        assert(before.push(list.last()).drop_last() =~= before);
    }
}

/// The metrics of each period count the runs that are over and were created within it, whatever
/// their conclusion; as passed and as failed count those of them that ended in success and in
/// failure.
pub proof fn law_metrics_count_runs(list: Seq<CachedRun>, now: Timestamp)
    requires
        list.len() <= u32::MAX,
    ensures
        counts_of(
            runs::summary_of(list, now).run_metrics.last_24_hours,
            over_since(list, now - 24 * 3_600_000_000_000),
        ),
        counts_of(
            runs::summary_of(list, now).run_metrics.last_7_days,
            over_since(list, now - 7 * 24 * 3_600_000_000_000),
        ),
        counts_of(
            runs::summary_of(list, now).run_metrics.last_14_days,
            over_since(list, now - 14 * 24 * 3_600_000_000_000),
        ),
{
    lemma_period_counts(list, now - 24 * 3_600_000_000_000);
    lemma_period_counts(list, now - 7 * 24 * 3_600_000_000_000);
    lemma_period_counts(list, now - 14 * 24 * 3_600_000_000_000);
}

proof fn lemma_period_counts(list: Seq<CachedRun>, since: int)
    requires
        list.len() <= u32::MAX,
    ensures
        counts_of(runs::period(list, since), over_since(list, since)),
{
    runs::lemma_tally(list, since, Some("success"@));
    runs::lemma_tally(list, since, Some("failure"@));
    lemma_tally_filters(list, since);
}

/// The status is that of the first run that is over: success and failure where it ended so, and
/// neither otherwise or where no run is over. A workflow is in progress exactly where one of its
/// runs is.
pub proof fn law_status_is_of_first_run_over(list: Seq<CachedRun>, now: Timestamp)
    ensures
        forall|i: int|
            0 <= i < list.len() && says((#[trigger] list[i]).status, "completed"@) && (forall|j: int|
                0 <= j < i ==> !says((#[trigger] list[j]).status, "completed"@)) ==> {
                let status = runs::summary_of(list, now).run_status;
                &&& status == RunStatus::Success <==> says(list[i].conclusion, "success"@)
                &&& status == RunStatus::Failure <==> says(list[i].conclusion, "failure"@)
            },
        (forall|i: int| 0 <= i < list.len() ==> !says((#[trigger] list[i]).status, "completed"@))
            ==> runs::summary_of(list, now).run_status == RunStatus::Other,
        runs::summary_of(list, now).is_in_progress == exists|i: int|
            0 <= i < list.len() && says((#[trigger] list[i]).status, "in_progress"@),
{
    runs::lemma_first_completed(list);
    reveal_strlit("success");
    reveal_strlit("failure");
    assert("success"@[0] != "failure"@[0]);
    assert forall|i: int|
        0 <= i < list.len() && says((#[trigger] list[i]).status, "completed"@) && (forall|j: int|
            0 <= j < i ==> !says((#[trigger] list[j]).status, "completed"@)) implies {
        let status = runs::summary_of(list, now).run_status;
        &&& status == RunStatus::Success <==> says(list[i].conclusion, "success"@)
        &&& status == RunStatus::Failure <==> says(list[i].conclusion, "failure"@)
    } by {
        assert(list[i].completed());
        let k = runs::first_completed(list)->0;
        if k < i {
            assert(says(list[k].status, "completed"@));
        }
        if i < k {
            assert(!list[i].completed());
        }
    }
    assert forall|i: int| 0 <= i < list.len() implies says(
        (#[trigger] list[i]).status,
        "in_progress"@,
    ) == crate::cache::is_text(list[i].status, "in_progress"@) by {}
    if runs::first_completed(list) is Some {
        let k = runs::first_completed(list)->0;
        assert(says(list[k].status, "completed"@));
    }
    if runs::summary_of(list, now).is_in_progress {
        let i = choose|i: int|
            0 <= i < list.len() && crate::cache::is_text(
                (#[trigger] list[i]).status,
                "in_progress"@,
            );
        assert(says(list[i].status, "in_progress"@));
    }
}

} // verus!
