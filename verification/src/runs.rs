//! The recent runs of a workflow: how they are fetched, kept and summed up.
use vstd::prelude::*;
use vstd::string::*;

use crate::cache::{self, CachedModel, CachedRun, CachedWorkflowRuns, Timestamp};
use crate::github::{RunCounts, RunMetrics, RunStatus};
use crate::response;
use crate::text;

verus! {

/// How many runs a full page holds.
pub const RUNS_PER_PAGE: usize = 100;

/// The nanoseconds of a day.
pub const DAY: i128 = 86_400_000_000_000;

/// What is displayed of the runs of a workflow.
#[derive(Clone, Copy, Debug, PartialEq, Eq, Structural)]
pub struct RunSummary {
    pub run_status: RunStatus,
    pub is_in_progress: bool,
    pub run_metrics: RunMetrics,
}

/// Whether a run is completed, was created at `since` or later, and, where a conclusion is
/// given, ended with it.
pub open spec fn counts_as(run: CachedRun, since: int, conclusion: Option<Seq<char>>) -> bool {
    &&& run.completed()
    &&& run.created_at >= since
    &&& conclusion is Some ==> cache::is_text(run.conclusion, conclusion->0)
}

/// How many runs [`counts_as`] holds of.
pub open spec fn tally(runs: Seq<CachedRun>, since: int, conclusion: Option<Seq<char>>) -> nat
    decreases runs.len(),
{
    if runs.len() == 0 {
        0
    } else {
        tally(runs.drop_last(), since, conclusion) + if counts_as(runs.last(), since, conclusion) {
            1nat
        } else {
            0nat
        }
    }
}

/// There are no more runs to count than runs.
pub proof fn lemma_tally(runs: Seq<CachedRun>, since: int, conclusion: Option<Seq<char>>)
    ensures
        tally(runs, since, conclusion) <= tally(runs, since, None) <= runs.len(),
    decreases runs.len(),
{
    if runs.len() > 0 {
        lemma_tally(runs.drop_last(), since, conclusion);
    }
}

/// The counts of a period.
pub open spec fn period(runs: Seq<CachedRun>, since: int) -> RunCounts {
    RunCounts {
        passed: tally(runs, since, Some("success"@)) as u32,
        failed: tally(runs, since, Some("failure"@)) as u32,
        total: tally(runs, since, None) as u32,
    }
}

/// The position of the first completed run.
pub open spec fn first_completed(runs: Seq<CachedRun>) -> Option<int>
    decreases runs.len(),
{
    if runs.len() == 0 {
        None
    } else {
        match first_completed(runs.drop_last()) {
            Some(i) => Some(i),
            None => if runs.last().completed() {
                Some(runs.len() - 1)
            } else {
                None
            },
        }
    }
}

/// What [`first_completed`] finds.
pub proof fn lemma_first_completed(runs: Seq<CachedRun>)
    ensures
        match first_completed(runs) {
            Some(i) => 0 <= i < runs.len() && runs[i].completed() && (forall|j: int|
                0 <= j < i ==> !(#[trigger] runs[j]).completed()),
            None => forall|j: int| 0 <= j < runs.len() ==> !(#[trigger] runs[j]).completed(),
        },
    decreases runs.len(),
{
    if runs.len() > 0 {
        let front = runs.drop_last();
        lemma_first_completed(front);
        assert forall|j: int| 0 <= j < front.len() implies runs[j] == #[trigger] front[j] by {}
        match first_completed(runs) {
            Some(i) => {
                assert forall|j: int| 0 <= j < i implies !(#[trigger] runs[j]).completed() by {
                    assert(!front[j].completed());
                }
            },
            None => {
                assert forall|j: int| 0 <= j < runs.len() implies !(
                #[trigger] runs[j]).completed() by {
                    if j < front.len() {
                        assert(!front[j].completed());
                    }
                }
            },
        }
    }
}

/// How a completed run ended.
pub open spec fn ending(run: CachedRun) -> RunStatus {
    if cache::is_text(run.conclusion, "success"@) {
        RunStatus::Success
    } else if cache::is_text(run.conclusion, "failure"@) {
        RunStatus::Failure
    } else {
        RunStatus::Other
    }
}

/// Whether some run is in progress.
pub open spec fn some_in_progress(runs: Seq<CachedRun>) -> bool {
    exists|i: int| 0 <= i < runs.len() && cache::is_text((#[trigger] runs[i]).status, "in_progress"@)
}

/// What runs, the newest first, come to.
pub open spec fn summary_of(runs: Seq<CachedRun>, now: Timestamp) -> RunSummary {
    RunSummary {
        run_status: match first_completed(runs) {
            Some(i) => ending(runs[i]),
            None => RunStatus::Other,
        },
        is_in_progress: some_in_progress(runs),
        run_metrics: RunMetrics {
            last_24_hours: period(runs, now - DAY),
            last_7_days: period(runs, now - 7 * DAY),
            last_14_days: period(runs, now - 14 * DAY),
        },
    }
}

/// Counts one completed run.
pub fn record_run(counts: &mut RunCounts, conclusion: &Option<String>)
    requires
        old(counts).total < u32::MAX,
        cache::is_text(*conclusion, "success"@) ==> old(counts).passed < u32::MAX,
        cache::is_text(*conclusion, "failure"@) ==> old(counts).failed < u32::MAX,
    ensures
        final(counts).total == old(counts).total + 1,
        final(counts).passed == old(counts).passed + if cache::is_text(*conclusion, "success"@) {
            1int
        } else {
            0int
        },
        final(counts).failed == old(counts).failed + if !cache::is_text(*conclusion, "success"@)
            && cache::is_text(*conclusion, "failure"@) {
            1int
        } else {
            0int
        },
{
    counts.total = counts.total + 1;
    if cache::holds(conclusion, "success") {
        counts.passed = counts.passed + 1;
    } else if cache::holds(conclusion, "failure") {
        counts.failed = counts.failed + 1;
    }
}

/// Points in time that lie at least fourteen days behind the start of the calendar.
pub open spec fn has_window(now: Timestamp) -> bool {
    response::is_calendar(now as int) && response::is_calendar(now - 14 * DAY)
}

fn count_period(runs: &Vec<CachedRun>, since: Timestamp) -> (r: RunCounts)
    requires
        runs@.len() <= u32::MAX,
    ensures
        r == period(runs@, since as int),
        r.passed == tally(runs@, since as int, Some("success"@)),
        r.failed == tally(runs@, since as int, Some("failure"@)),
        r.total == tally(runs@, since as int, None),
{
    let mut counts = RunCounts { passed: 0, failed: 0, total: 0 };
    let mut i: usize = 0;
    proof {
        reveal_strlit("success");
        reveal_strlit("failure");
        assert("success"@[0] != "failure"@[0]);
    }
    while i < runs.len()
        invariant
            i <= runs@.len() <= u32::MAX,
            "success"@ != "failure"@,
            counts.passed == tally(runs@.take(i as int), since as int, Some("success"@)),
            counts.failed == tally(runs@.take(i as int), since as int, Some("failure"@)),
            counts.total == tally(runs@.take(i as int), since as int, None),
        decreases runs@.len() - i,
    {
        let ghost t = runs@.take(i as int);
        proof {
            lemma_tally(t, since as int, Some("success"@));
            lemma_tally(t, since as int, Some("failure"@));
        }
        assert(runs@.take(i + 1).drop_last() =~= t);
        if runs[i].is_completed() && runs[i].created_at >= since {
            record_run(&mut counts, &runs[i].conclusion);
        }
        i = i + 1;
    }
    assert(runs@.take(i as int) =~= runs@);
    counts
}

/// Sums up runs, the newest first.
pub fn summarize_runs(runs: &Vec<CachedRun>, now: Timestamp) -> (r: RunSummary)
    requires
        has_window(now),
        runs@.len() <= u32::MAX,
    ensures
        r == summary_of(runs@, now),
{
    let mut run_status = RunStatus::Other;
    let mut is_in_progress = false;
    let mut found_completed = false;
    let mut i: usize = 0;
    while i < runs.len()
        invariant
            i <= runs@.len(),
            found_completed == (first_completed(runs@.take(i as int)) is Some),
            run_status == (match first_completed(runs@.take(i as int)) {
                Some(k) => ending(runs@[k]),
                None => RunStatus::Other,
            }),
            is_in_progress == exists|j: int|
                0 <= j < i && cache::is_text((#[trigger] runs@[j]).status, "in_progress"@),
        decreases runs@.len() - i,
    {
        assert(runs@.take(i + 1).drop_last() =~= runs@.take(i as int));
        assert(runs@.take(i + 1).last() == runs@[i as int]);
        let run = &runs[i];
        if cache::holds(&run.status, "in_progress") {
            is_in_progress = true;
        }
        if run.is_completed() && !found_completed {
            run_status =
            if cache::holds(&run.conclusion, "success") {
                RunStatus::Success
            } else if cache::holds(&run.conclusion, "failure") {
                RunStatus::Failure
            } else {
                RunStatus::Other
            };
            found_completed = true;
        }
        i = i + 1;
    }
    assert(runs@.take(i as int) =~= runs@);
    RunSummary {
        run_status,
        is_in_progress,
        run_metrics: RunMetrics {
            last_24_hours: count_period(runs, now - DAY),
            last_7_days: count_period(runs, now - 7 * DAY),
            last_14_days: count_period(runs, now - 14 * DAY),
        },
    }
}

/// Whether a run repeats the identifier of a run before it.
pub open spec fn repeats(runs: Seq<CachedRun>, run: CachedRun) -> bool {
    run.id is Some && cache::has_run(runs, run.id->0)
}

/// The runs without those that repeat an identifier. Runs without one all stay.
pub open spec fn distinct_runs(runs: Seq<CachedRun>) -> Seq<CachedRun>
    decreases runs.len(),
{
    if runs.len() == 0 {
        Seq::empty()
    } else {
        let before = distinct_runs(runs.drop_last());
        if repeats(runs.drop_last(), runs.last()) {
            before
        } else {
            before.push(runs.last())
        }
    }
}

/// [`distinct_runs`] keeps a run of every identifier.
pub proof fn lemma_distinct_runs(runs: Seq<CachedRun>, id: u64)
    ensures
        cache::has_run(distinct_runs(runs), id) == cache::has_run(runs, id),
        distinct_runs(runs).len() <= runs.len(),
    decreases runs.len(),
{
    if runs.len() > 0 {
        let front = runs.drop_last();
        let before = distinct_runs(front);
        lemma_distinct_runs(front, id);
        if cache::has_run(front, id) {
            let i = choose|i: int| 0 <= i < front.len() && (#[trigger] front[i]).id == Some(id);
            assert(runs[i].id == Some(id));
            let k = choose|k: int| 0 <= k < before.len() && (#[trigger] before[k]).id == Some(id);
            assert(distinct_runs(runs)[k] == before[k]);
        }
        if runs.last().id == Some(id) {
            assert(runs[runs.len() - 1].id == Some(id));
            if !repeats(front, runs.last()) {
                assert(distinct_runs(runs)[before.len() as int] == runs.last());
            }
        }
        if cache::has_run(runs, id) && !cache::has_run(front, id) {
            let i = choose|i: int| 0 <= i < runs.len() && (#[trigger] runs[i]).id == Some(id);
            if i < front.len() {
                assert(front[i].id == Some(id));
            }
        }
        if cache::has_run(distinct_runs(runs), id) && !cache::has_run(before, id) {
            let all = distinct_runs(runs);
            let i = choose|i: int| 0 <= i < all.len() && (#[trigger] all[i]).id == Some(id);
            if i < before.len() {
                assert(before[i].id == Some(id));
            }
        }
    }
}

/// The runs that have an identifier.
pub open spec fn identified(runs: Seq<CachedRun>) -> Seq<CachedRun> {
    runs.filter(|run: CachedRun| run.id is Some)
}

/// Cached runs together with freshly fetched ones, which come first: of the runs with one
/// identifier the first stays. Runs without an identifier cannot be told apart, so of those only
/// the fetched ones stay.
pub open spec fn merged(cached: Seq<CachedRun>, fetched: Seq<CachedRun>) -> Seq<CachedRun> {
    distinct_runs(fetched + identified(cached))
}

/// There are no more runs in [`merged`] than were merged.
pub proof fn lemma_merged_len(cached: Seq<CachedRun>, fetched: Seq<CachedRun>)
    ensures
        merged(cached, fetched).len() <= fetched.len() + cached.len(),
{
    cached.lemma_filter_len(|run: CachedRun| run.id is Some);
    lemma_distinct_runs(fetched + identified(cached), 0);
}

/// Combines cached runs with freshly fetched ones, preferring fresh data.
pub fn merge_runs(cached: &Vec<CachedRun>, fetched: &Vec<CachedRun>) -> (r: Vec<CachedRun>)
    ensures
        r@ == merged(cached@, fetched@),
{
    let mut merged: Vec<CachedRun> = Vec::new();
    let mut i: usize = 0;
    assert(merged@ =~= distinct_runs(fetched@.take(0)));
    while i < fetched.len()
        invariant
            i <= fetched@.len(),
            merged@ == distinct_runs(fetched@.take(i as int)),
        decreases fetched@.len() - i,
    {
        let ghost k = i as int;
        assert(fetched@.take(k + 1).drop_last() =~= fetched@.take(k));
        assert(fetched@.take(k + 1).last() == fetched@[k]);
        keep_new(&mut merged, &fetched[i], Ghost(fetched@.take(k)));
        i = i + 1;
    }
    let mut j: usize = 0;
    proof {
        assert(fetched@.take(i as int) =~= fetched@);
        reveal(Seq::filter);
        assert(fetched@ + identified(cached@.take(0)) =~= fetched@);
    }
    while j < cached.len()
        invariant
            j <= cached@.len(),
            merged@ == distinct_runs(fetched@ + identified(cached@.take(j as int))),
        decreases cached@.len() - j,
    {
        let ghost before = cached@.take(j as int);
        let ghost all = fetched@ + identified(before);
        proof {
            reveal(Seq::filter);
            assert(cached@.take(j + 1).drop_last() =~= before);
            assert(cached@.take(j + 1).last() == cached@[j as int]);
        }
        if cached[j].id.is_some() {
            assert(fetched@ + identified(cached@.take(j + 1)) =~= all.push(cached@[j as int]));
            assert(all.push(cached@[j as int]).drop_last() =~= all);
            keep_new(&mut merged, &cached[j], Ghost(all));
        }
        j = j + 1;
    }
    assert(cached@.take(j as int) =~= cached@);
    merged
}

fn keep_new(merged: &mut Vec<CachedRun>, run: &CachedRun, Ghost(before): Ghost<Seq<CachedRun>>)
    requires
        old(merged)@ == distinct_runs(before),
    ensures
        final(merged)@ == (if repeats(before, *run) {
            old(merged)@
        } else {
            old(merged)@.push(*run)
        }),
{
    if let Some(id) = run.id {
        proof {
            lemma_distinct_runs(before, id);
        }
        let mut i: usize = 0;
        while i < merged.len()
            invariant
                i <= merged@.len(),
                merged@ == old(merged)@,
                run.id == Some(id),
                cache::has_run(merged@, id) == cache::has_run(before, id),
                forall|j: int| 0 <= j < i ==> (#[trigger] merged@[j]).id != Some(id),
            decreases merged@.len() - i,
        {
            if let Some(found) = merged[i].id {
                if found == id {
                    assert(merged@[i as int].id == Some(id));
                    return;
                }
            }
            i = i + 1;
        }
    }
    merged.push(run.clone());
}

/// Runs in order, the newest first, with one more run in its place: behind the runs that are
/// no older.
pub open spec fn with_run(runs: Seq<CachedRun>, run: CachedRun) -> Seq<CachedRun>
    decreases runs.len(),
{
    if runs.len() == 0 || runs.last().created_at >= run.created_at {
        runs.push(run)
    } else {
        with_run(runs.drop_last(), run).push(runs.last())
    }
}

/// The runs in order, the newest first; of runs of one time the first stays first.
pub open spec fn newest_first(runs: Seq<CachedRun>) -> Seq<CachedRun>
    decreases runs.len(),
{
    if runs.len() == 0 {
        Seq::empty()
    } else {
        with_run(newest_first(runs.drop_last()), runs.last())
    }
}

/// The runs up to position `upto` that are kept: those of the window, and the newest completed
/// one.
pub open spec fn kept(runs: Seq<CachedRun>, cutoff: int, upto: int) -> Seq<CachedRun>
    decreases upto,
{
    if upto <= 0 {
        Seq::empty()
    } else {
        let before = kept(runs, cutoff, upto - 1);
        if runs[upto - 1].created_at >= cutoff || first_completed(runs) == Some(upto - 1) {
            before.push(runs[upto - 1])
        } else {
            before
        }
    }
}

/// What is kept of runs. Metrics only cover the last fourteen days, but the status reflects the
/// most recent completed run even when it is older, so that run stays too.
pub open spec fn pruned(runs: Seq<CachedRun>, cutoff: int) -> Seq<CachedRun> {
    let sorted = newest_first(runs);
    kept(sorted, cutoff, sorted.len() as int)
}

/// No runs are added by ordering and pruning.
pub proof fn lemma_pruned_len(runs: Seq<CachedRun>, cutoff: int)
    ensures
        newest_first(runs).len() == runs.len(),
        pruned(runs, cutoff).len() <= runs.len(),
{
    lemma_newest_first_len(runs);
    let sorted = newest_first(runs);
    lemma_kept_len(sorted, cutoff, sorted.len() as int);
}

proof fn lemma_kept_len(runs: Seq<CachedRun>, cutoff: int, upto: int)
    requires
        0 <= upto,
    ensures
        kept(runs, cutoff, upto).len() <= upto,
    decreases upto,
{
    if upto > 0 {
        lemma_kept_len(runs, cutoff, upto - 1);
    }
}

proof fn lemma_with_run_len(runs: Seq<CachedRun>, run: CachedRun)
    ensures
        with_run(runs, run).len() == runs.len() + 1,
    decreases runs.len(),
{
    if runs.len() > 0 {
        lemma_with_run_len(runs.drop_last(), run);
    }
}

proof fn lemma_newest_first_len(runs: Seq<CachedRun>)
    ensures
        newest_first(runs).len() == runs.len(),
    decreases runs.len(),
{
    if runs.len() > 0 {
        lemma_newest_first_len(runs.drop_last());
        lemma_with_run_len(newest_first(runs.drop_last()), runs.last());
    }
}

fn insert_run(runs: &mut Vec<CachedRun>, run: CachedRun)
    ensures
        final(runs)@ == with_run(old(runs)@, run),
{
    let ghost all = runs@;
    let mut i: usize = runs.len();
    assert(all.take(i as int) =~= all);
    assert(with_run(all, run) + all.skip(i as int) =~= with_run(all, run));
    while i > 0 && runs[i - 1].created_at < run.created_at
        invariant
            i <= runs@.len(),
            all == runs@,
            with_run(all, run) == with_run(all.take(i as int), run) + all.skip(i as int),
        decreases i,
    {
        let ghost head = all.take(i as int);
        assert(head.drop_last() =~= all.take(i - 1));
        assert(with_run(head.drop_last(), run).push(head.last()) + all.skip(i as int) =~= with_run(
            head.drop_last(),
            run,
        ) + all.skip(i - 1));
        i = i - 1;
    }
    runs.insert(i, run);
    assert(runs@ =~= all.take(i as int).push(run) + all.skip(i as int));
}

/// Orders runs, the newest first, and drops those that are no longer needed.
pub fn prune_runs(runs: &Vec<CachedRun>, cutoff: Timestamp, etag: Option<String>) -> (r:
    CachedWorkflowRuns)
    ensures
        r@ == (CachedModel {
            etag: text::view_opt(etag),
            runs: pruned(runs@, cutoff as int),
        }),
{
    let mut sorted: Vec<CachedRun> = Vec::new();
    let mut i: usize = 0;
    assert(sorted@ =~= newest_first(runs@.take(0)));
    while i < runs.len()
        invariant
            i <= runs@.len(),
            sorted@ == newest_first(runs@.take(i as int)),
        decreases runs@.len() - i,
    {
        assert(runs@.take(i + 1).drop_last() =~= runs@.take(i as int));
        insert_run(&mut sorted, runs[i].clone());
        i = i + 1;
    }
    assert(runs@.take(i as int) =~= runs@);
    let mut retained: Vec<CachedRun> = Vec::new();
    let mut newest_completed: Option<usize> = None;
    let mut k: usize = 0;
    proof {
        lemma_first_completed(sorted@);
    }
    while k < sorted.len()
        invariant
            k <= sorted@.len(),
            retained@ == kept(sorted@, cutoff as int, k as int),
            match newest_completed {
                Some(n) => first_completed(sorted@) == Some(n as int) && n < k,
                None => match first_completed(sorted@) {
                    Some(n) => k <= n,
                    None => true,
                },
            },
            match first_completed(sorted@) {
                Some(n) => 0 <= n < sorted@.len() && sorted@[n].completed() && (forall|j: int|
                    0 <= j < n ==> !(#[trigger] sorted@[j]).completed()),
                None => forall|j: int|
                    0 <= j < sorted@.len() ==> !(#[trigger] sorted@[j]).completed(),
            },
        decreases sorted@.len() - k,
    {
        let newest = newest_completed.is_none() && sorted[k].is_completed();
        if newest {
            newest_completed = Some(k);
        }
        if sorted[k].created_at >= cutoff || newest {
            retained.push(sorted[k].clone());
        }
        k = k + 1;
    }
    CachedWorkflowRuns { etag, runs: retained }
}

/// Whether runs are in order, the newest first.
pub open spec fn in_order(runs: Seq<CachedRun>) -> bool {
    forall|i: int, j: int|
        0 <= i <= j < runs.len() ==> (#[trigger] runs[i]).created_at >= (
        #[trigger] runs[j]).created_at
}

/// The runs of one time, in their order.
pub open spec fn created_at(runs: Seq<CachedRun>, t: Timestamp) -> Seq<CachedRun> {
    runs.filter(|run: CachedRun| run.created_at == t)
}

proof fn lemma_with_run_bound(runs: Seq<CachedRun>, run: CachedRun, t: Timestamp)
    requires
        forall|i: int| 0 <= i < runs.len() ==> (#[trigger] runs[i]).created_at >= t,
        run.created_at >= t,
    ensures
        forall|i: int|
            0 <= i < with_run(runs, run).len() ==> (#[trigger] with_run(runs, run)[i]).created_at
                >= t,
    decreases runs.len(),
{
    if runs.len() > 0 {
        lemma_with_run_bound(runs.drop_last(), run, t);
    }
}

proof fn lemma_with_run(runs: Seq<CachedRun>, run: CachedRun)
    requires
        in_order(runs),
    ensures
        in_order(with_run(runs, run)),
        with_run(runs, run).to_multiset() == runs.to_multiset().insert(run),
        forall|t: Timestamp|
            #[trigger] created_at(with_run(runs, run), t) == created_at(runs.push(run), t),
        forall|since: int, conclusion: Option<Seq<char>>|
            #[trigger] tally(with_run(runs, run), since, conclusion) == tally(
                runs.push(run),
                since,
                conclusion,
            ),
    decreases runs.len(),
{
    broadcast use vstd::seq_lib::group_to_multiset_ensures;

    if runs.len() == 0 || runs.last().created_at >= run.created_at {
        assert(with_run(runs, run) == runs.push(run));
    } else {
        let front = runs.drop_last();
        let last = runs.last();
        let inner = with_run(front, run);
        lemma_with_run(front, run);
        lemma_with_run_bound(front, run, last.created_at);
        assert(runs =~= front.push(last));
        assert(inner.push(last).to_multiset() =~= runs.to_multiset().insert(run));
        assert forall|t: Timestamp|
            #[trigger] created_at(with_run(runs, run), t) == created_at(runs.push(run), t) by {
            reveal(Seq::filter);
            assert(inner.push(last).drop_last() =~= inner);
            assert(runs.push(run).drop_last() =~= runs);
            assert(front.push(run).drop_last() =~= front);
            assert(created_at(inner, t) == created_at(front.push(run), t));
            assert(created_at(runs, t) == (if last.created_at == t {
                created_at(front, t).push(last)
            } else {
                created_at(front, t)
            }));
        }
        assert forall|since: int, conclusion: Option<Seq<char>>|
            #[trigger] tally(with_run(runs, run), since, conclusion) == tally(
                runs.push(run),
                since,
                conclusion,
            ) by {
            assert(inner.push(last).drop_last() =~= inner);
            assert(runs.push(run).drop_last() =~= runs);
            assert(front.push(run).drop_last() =~= front);
            assert(tally(inner, since, conclusion) == tally(front.push(run), since, conclusion));
            assert(tally(runs, since, conclusion) >= tally(front, since, conclusion));
        }
    }
}

/// Ordering runs puts the newest first, loses and adds none, keeps the order of runs of one
/// time, and changes no count.
pub proof fn law_newest_first(runs: Seq<CachedRun>)
    ensures
        in_order(newest_first(runs)),
        newest_first(runs).to_multiset() == runs.to_multiset(),
        forall|t: Timestamp|
            #[trigger] created_at(newest_first(runs), t) == created_at(runs, t),
        forall|since: int, conclusion: Option<Seq<char>>|
            #[trigger] tally(newest_first(runs), since, conclusion) == tally(
                runs,
                since,
                conclusion,
            ),
    decreases runs.len(),
{
    broadcast use vstd::seq_lib::group_to_multiset_ensures;

    if runs.len() > 0 {
        let front = runs.drop_last();
        let run = runs.last();
        let sorted = newest_first(front);
        law_newest_first(front);
        lemma_with_run(sorted, run);
        assert(runs =~= front.push(run));
        assert forall|t: Timestamp|
            #[trigger] created_at(newest_first(runs), t) == created_at(runs, t) by {
            reveal(Seq::filter);
            assert(sorted.push(run).drop_last() =~= sorted);
            assert(created_at(with_run(sorted, run), t) == created_at(sorted.push(run), t));
            assert(created_at(sorted, t) == created_at(front, t));
        }
        assert forall|since: int, conclusion: Option<Seq<char>>|
            #[trigger] tally(newest_first(runs), since, conclusion) == tally(
                runs,
                since,
                conclusion,
            ) by {
            assert(sorted.push(run).drop_last() =~= sorted);
            assert(tally(with_run(sorted, run), since, conclusion) == tally(
                sorted.push(run),
                since,
                conclusion,
            ));
            assert(tally(sorted, since, conclusion) == tally(front, since, conclusion));
        }
    } else {
        assert(newest_first(runs) =~= runs);
    }
}

proof fn lemma_kept(runs: Seq<CachedRun>, cutoff: int, upto: int)
    requires
        0 <= upto <= runs.len(),
    ensures
        forall|since: int, conclusion: Option<Seq<char>>|
            since >= cutoff ==> #[trigger] tally(kept(runs, cutoff, upto), since, conclusion)
                == tally(runs.take(upto), since, conclusion),
        match first_completed(runs) {
            Some(n) => if n < upto {
                match first_completed(kept(runs, cutoff, upto)) {
                    Some(m) => 0 <= m < kept(runs, cutoff, upto).len() && kept(
                        runs,
                        cutoff,
                        upto,
                    )[m] == runs[n],
                    None => false,
                }
            } else {
                first_completed(kept(runs, cutoff, upto)) is None
            },
            None => first_completed(kept(runs, cutoff, upto)) is None,
        },
        forall|k: int|
            0 <= k < kept(runs, cutoff, upto).len() ==> (#[trigger] kept(runs, cutoff, upto)[k]).created_at
                >= cutoff || first_completed(kept(runs, cutoff, upto)) == Some(k),
        in_order(runs) ==> in_order(kept(runs, cutoff, upto)),
        in_order(runs) && upto > 0 ==> forall|k: int|
            0 <= k < kept(runs, cutoff, upto).len() ==> (#[trigger] kept(runs, cutoff, upto)[k]).created_at
                >= runs[upto - 1].created_at,
    decreases upto,
{
    lemma_first_completed(runs);
    if upto > 0 {
        lemma_kept(runs, cutoff, upto - 1);
        let before = kept(runs, cutoff, upto - 1);
        let after = kept(runs, cutoff, upto);
        let run = runs[upto - 1];
        lemma_first_completed(before);
        assert(runs.take(upto).drop_last() =~= runs.take(upto - 1));
        assert(before.push(run).drop_last() =~= before);
        assert forall|since: int, conclusion: Option<Seq<char>>| since >= cutoff implies
            #[trigger] tally(after, since, conclusion) == tally(
                runs.take(upto),
                since,
                conclusion,
            ) by {
            assert(tally(before, since, conclusion) == tally(
                runs.take(upto - 1),
                since,
                conclusion,
            ));
        }
    }
}

/// Pruning keeps what is displayed: the counts of every period within the fourteen days, and
/// the status, which is that of the newest completed run however old it is.
pub proof fn law_prune_keeps_metrics_and_status(runs: Seq<CachedRun>, now: Timestamp, since: int)
    requires
        since >= now - 14 * DAY,
    ensures
        period(pruned(runs, now - 14 * DAY), since) == period(runs, since),
        summary_of(pruned(runs, now - 14 * DAY), now).run_metrics == summary_of(
            runs,
            now,
        ).run_metrics,
        summary_of(pruned(runs, now - 14 * DAY), now).run_status == summary_of(
            newest_first(runs),
            now,
        ).run_status,
{
    let sorted = newest_first(runs);
    let cutoff = now - 14 * DAY;
    law_newest_first(runs);
    lemma_first_completed(sorted);
    lemma_kept(sorted, cutoff, sorted.len() as int);
    assert(sorted.take(sorted.len() as int) =~= sorted);
    assert forall|from: int, conclusion: Option<Seq<char>>| from >= cutoff implies
        #[trigger] tally(pruned(runs, cutoff), from, conclusion) == tally(runs, from, conclusion) by {
        assert(tally(sorted, from, conclusion) == tally(runs, from, conclusion));
    }
    assert forall|from: int| from >= cutoff implies
        #[trigger] period(pruned(runs, cutoff), from) == period(runs, from) by {}
}

/// Runs that are in order stay as they are when they are ordered.
pub proof fn lemma_newest_first_stays(runs: Seq<CachedRun>)
    requires
        in_order(runs),
    ensures
        newest_first(runs) == runs,
    decreases runs.len(),
{
    if runs.len() > 0 {
        lemma_newest_first_stays(runs.drop_last());
        assert(runs.drop_last().push(runs.last()) =~= runs);
        if runs.len() > 1 {
            assert(runs[runs.len() - 2].created_at >= runs[runs.len() - 1].created_at);
        }
    } else {
        assert(newest_first(runs) =~= runs);
    }
}

proof fn lemma_kept_all(runs: Seq<CachedRun>, cutoff: int, upto: int)
    requires
        0 <= upto <= runs.len(),
        forall|k: int|
            0 <= k < runs.len() ==> (#[trigger] runs[k]).created_at >= cutoff || first_completed(
                runs,
            ) == Some(k),
    ensures
        kept(runs, cutoff, upto) == runs.take(upto),
    decreases upto,
{
    if upto > 0 {
        lemma_kept_all(runs, cutoff, upto - 1);
        assert(runs.take(upto) =~= runs.take(upto - 1).push(runs[upto - 1]));
    } else {
        assert(runs.take(0) =~= Seq::empty());
    }
}

/// What was pruned is left as it is when it is pruned again.
pub proof fn law_prune_idempotent(runs: Seq<CachedRun>, cutoff: int)
    ensures
        in_order(pruned(runs, cutoff)),
        pruned(pruned(runs, cutoff), cutoff) == pruned(runs, cutoff),
{
    let sorted = newest_first(runs);
    let once = pruned(runs, cutoff);
    law_newest_first(runs);
    lemma_kept(sorted, cutoff, sorted.len() as int);
    lemma_newest_first_stays(once);
    lemma_kept_all(once, cutoff, once.len() as int);
    assert(once.take(once.len() as int) =~= once);
}

/// The first run with an identifier.
pub open spec fn first_with_id(runs: Seq<CachedRun>, id: u64) -> Option<CachedRun>
    decreases runs.len(),
{
    if runs.len() == 0 {
        None
    } else {
        match first_with_id(runs.drop_last(), id) {
            Some(run) => Some(run),
            None => if runs.last().id == Some(id) {
                Some(runs.last())
            } else {
                None
            },
        }
    }
}

proof fn lemma_first_with_id(runs: Seq<CachedRun>, id: u64)
    ensures
        (first_with_id(runs, id) is Some) == cache::has_run(runs, id),
        first_with_id(runs, id) is Some ==> first_with_id(runs, id)->0.id == Some(id),
    decreases runs.len(),
{
    if runs.len() > 0 {
        let front = runs.drop_last();
        lemma_first_with_id(front, id);
        if cache::has_run(front, id) {
            let i = choose|i: int| 0 <= i < front.len() && (#[trigger] front[i]).id == Some(id);
            assert(runs[i].id == Some(id));
        }
        if cache::has_run(runs, id) && !cache::has_run(front, id) {
            let i = choose|i: int| 0 <= i < runs.len() && (#[trigger] runs[i]).id == Some(id);
            if i < front.len() {
                assert(front[i].id == Some(id));
            }
        }
        if runs.last().id == Some(id) {
            assert(runs[runs.len() - 1].id == Some(id));
        }
    }
}

proof fn lemma_distinct_first(runs: Seq<CachedRun>, id: u64)
    ensures
        first_with_id(distinct_runs(runs), id) == first_with_id(runs, id),
    decreases runs.len(),
{
    if runs.len() > 0 {
        let front = runs.drop_last();
        let before = distinct_runs(front);
        lemma_distinct_first(front, id);
        lemma_first_with_id(front, id);
        assert(before.push(runs.last()).drop_last() =~= before);
    }
}

proof fn lemma_first_of_sum(a: Seq<CachedRun>, b: Seq<CachedRun>, id: u64)
    ensures
        first_with_id(a + b, id) == (match first_with_id(a, id) {
            Some(run) => Some(run),
            None => first_with_id(b, id),
        }),
    decreases b.len(),
{
    if b.len() == 0 {
        assert(a + b =~= a);
    } else {
        lemma_first_of_sum(a, b.drop_last(), id);
        assert((a + b).drop_last() =~= a + b.drop_last());
    }
}

/// Merging prefers fresh data: of the runs with one identifier one is left, the first of those
/// fetched where one was fetched, and otherwise the first of those cached. Of the runs without
/// an identifier those fetched are left.
pub proof fn law_merge_prefers_fresh(cached: Seq<CachedRun>, fetched: Seq<CachedRun>, id: u64)
    ensures
        first_with_id(merged(cached, fetched), id) == (match first_with_id(fetched, id) {
            Some(run) => Some(run),
            None => first_with_id(cached, id),
        }),
        forall|i: int, j: int|
            0 <= i < j < merged(cached, fetched).len() && (#[trigger] merged(cached, fetched)[i]).id
                == Some(id) ==> (#[trigger] merged(cached, fetched)[j]).id != Some(id),
        unidentified(merged(cached, fetched)) == unidentified(fetched),
{
    let known = identified(cached);
    lemma_first_identified(cached, id);
    lemma_distinct_first(fetched + known, id);
    lemma_first_of_sum(fetched, known, id);
    lemma_distinct_once(fetched + known, id);
    lemma_distinct_unidentified(fetched + known);
    lemma_unidentified_sum(fetched, cached);
}

/// The runs that have no identifier.
pub open spec fn unidentified(runs: Seq<CachedRun>) -> Seq<CachedRun> {
    runs.filter(|run: CachedRun| run.id is None)
}

proof fn lemma_first_identified(runs: Seq<CachedRun>, id: u64)
    ensures
        first_with_id(identified(runs), id) == first_with_id(runs, id),
    decreases runs.len(),
{
    reveal(Seq::filter);
    if runs.len() > 0 {
        let front = runs.drop_last();
        lemma_first_identified(front, id);
        if runs.last().id is Some {
            assert(identified(runs) == identified(front).push(runs.last()));
            assert(identified(front).push(runs.last()).drop_last() =~= identified(front));
        }
    }
}

proof fn lemma_distinct_unidentified(runs: Seq<CachedRun>)
    ensures
        unidentified(distinct_runs(runs)) == unidentified(runs),
    decreases runs.len(),
{
    reveal(Seq::filter);
    if runs.len() > 0 {
        let before = distinct_runs(runs.drop_last());
        lemma_distinct_unidentified(runs.drop_last());
        assert(before.push(runs.last()).drop_last() =~= before);
    }
}

proof fn lemma_unidentified_sum(fetched: Seq<CachedRun>, cached: Seq<CachedRun>)
    ensures
        unidentified(fetched + identified(cached)) == unidentified(fetched),
    decreases cached.len(),
{
    reveal(Seq::filter);
    if cached.len() == 0 {
        assert(fetched + identified(cached) =~= fetched);
    } else {
        let front = cached.drop_last();
        lemma_unidentified_sum(fetched, front);
        if cached.last().id is Some {
            let all = fetched + identified(front);
            assert(fetched + identified(cached) =~= all.push(cached.last()));
            assert(all.push(cached.last()).drop_last() =~= all);
        }
    }
}

proof fn lemma_distinct_once(runs: Seq<CachedRun>, id: u64)
    ensures
        forall|i: int, j: int|
            0 <= i < j < distinct_runs(runs).len() && (#[trigger] distinct_runs(runs)[i]).id
                == Some(id) ==> (#[trigger] distinct_runs(runs)[j]).id != Some(id),
    decreases runs.len(),
{
    if runs.len() > 0 {
        let front = runs.drop_last();
        let before = distinct_runs(front);
        lemma_distinct_once(front, id);
        lemma_distinct_runs(front, id);
    }
}

proof fn lemma_tally_since(
    runs: Seq<CachedRun>,
    early: int,
    late: int,
    conclusion: Option<Seq<char>>,
)
    requires
        early <= late,
    ensures
        tally(runs, late, conclusion) <= tally(runs, early, conclusion),
    decreases runs.len(),
{
    if runs.len() > 0 {
        lemma_tally_since(runs.drop_last(), early, late, conclusion);
    }
}

proof fn lemma_tally_parts(runs: Seq<CachedRun>, since: int)
    ensures
        tally(runs, since, Some("success"@)) + tally(runs, since, Some("failure"@)) <= tally(
            runs,
            since,
            None,
        ) <= runs.len(),
    decreases runs.len(),
{
    reveal_strlit("success");
    reveal_strlit("failure");
    assert("success"@[0] != "failure"@[0]);
    if runs.len() > 0 {
        lemma_tally_parts(runs.drop_last(), since);
    }
}

/// The counts of a summary fit together: no more runs passed and failed than there are, and a
/// longer period counts no fewer runs.
pub proof fn law_counts_fit(runs: Seq<CachedRun>, now: Timestamp)
    requires
        runs.len() <= u32::MAX,
    ensures
        ({
            let metrics = summary_of(runs, now).run_metrics;
            &&& metrics.last_24_hours.passed + metrics.last_24_hours.failed
                <= metrics.last_24_hours.total
            &&& metrics.last_7_days.passed + metrics.last_7_days.failed <= metrics.last_7_days.total
            &&& metrics.last_14_days.passed + metrics.last_14_days.failed
                <= metrics.last_14_days.total
            &&& metrics.last_24_hours.passed <= metrics.last_7_days.passed
                <= metrics.last_14_days.passed
            &&& metrics.last_24_hours.failed <= metrics.last_7_days.failed
                <= metrics.last_14_days.failed
            &&& metrics.last_24_hours.total <= metrics.last_7_days.total
                <= metrics.last_14_days.total <= runs.len()
        }),
{
    lemma_tally_parts(runs, now - DAY);
    lemma_tally_parts(runs, now - 7 * DAY);
    lemma_tally_parts(runs, now - 14 * DAY);
    lemma_tally_since(runs, now - 7 * DAY, now - DAY, Some("success"@));
    lemma_tally_since(runs, now - 7 * DAY, now - DAY, Some("failure"@));
    lemma_tally_since(runs, now - 7 * DAY, now - DAY, None);
    lemma_tally_since(runs, now - 14 * DAY, now - 7 * DAY, Some("success"@));
    lemma_tally_since(runs, now - 14 * DAY, now - 7 * DAY, Some("failure"@));
    lemma_tally_since(runs, now - 14 * DAY, now - 7 * DAY, None);
}

} // verus!
