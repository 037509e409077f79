//! What is fetched page by page comes to what the whole history of a workflow comes to.
use vstd::prelude::*;

use crate::cache::{self, CachedRun};
use crate::fetch::FetchModel;
use crate::runs;

verus! {

/// The runs up to position `upto` at the positions that a mask picks.
pub open spec fn picked(runs: Seq<CachedRun>, mask: spec_fn(int) -> bool, upto: int) -> Seq<
    CachedRun,
>
    decreases upto,
{
    if upto <= 0 {
        Seq::empty()
    } else {
        let before = picked(runs, mask, upto - 1);
        if mask(upto - 1) {
            before.push(runs[upto - 1])
        } else {
            before
        }
    }
}

/// The positions of the runs that pruning keeps.
pub open spec fn stays(runs: Seq<CachedRun>, cutoff: int) -> spec_fn(int) -> bool {
    |i: int| runs[i].created_at >= cutoff || runs::first_completed(runs) == Some(i)
}

proof fn lemma_kept_picked(runs: Seq<CachedRun>, cutoff: int, upto: int)
    requires
        0 <= upto <= runs.len(),
    ensures
        runs::kept(runs, cutoff, upto) == picked(runs, stays(runs, cutoff), upto),
    decreases upto,
{
    if upto > 0 {
        lemma_kept_picked(runs, cutoff, upto - 1);
    }
}

proof fn lemma_picked_len(runs: Seq<CachedRun>, mask: spec_fn(int) -> bool, a: int, b: int)
    requires
        0 <= a <= b <= runs.len(),
    ensures
        picked(runs, mask, a).len() <= picked(runs, mask, b).len() <= b,
        picked(runs, mask, b).take(picked(runs, mask, a).len() as int) == picked(runs, mask, a),
        forall|k: int|
            0 <= k < picked(runs, mask, a).len() ==> #[trigger] picked(runs, mask, b)[k] == picked(
                runs,
                mask,
                a,
            )[k],
    decreases b,
{
    if b > a {
        lemma_picked_len(runs, mask, a, b - 1);
        assert(picked(runs, mask, b).take(picked(runs, mask, a).len() as int) =~= picked(
            runs,
            mask,
            a,
        ));
    } else {
        if b > 0 {
            lemma_picked_len(runs, mask, b - 1, b - 1);
        }
        assert(picked(runs, mask, b).take(picked(runs, mask, b).len() as int) =~= picked(
            runs,
            mask,
            b,
        ));
    }
}

/// Every run that is picked stands where it stood, among those picked before it.
proof fn lemma_picked_from(runs: Seq<CachedRun>, mask: spec_fn(int) -> bool, upto: int, k: int)
    requires
        0 <= upto <= runs.len(),
        0 <= k < picked(runs, mask, upto).len(),
    ensures
        exists|i: int|
            #![trigger runs[i]]
            0 <= i < upto && mask(i) && picked(runs, mask, upto)[k] == runs[i] && picked(
                runs,
                mask,
                i,
            ).len() == k,
    decreases upto,
{
    let before = picked(runs, mask, upto - 1);
    if k < before.len() {
        lemma_picked_from(runs, mask, upto - 1, k);
        let i = choose|i: int|
            #![trigger runs[i]]
            0 <= i < upto - 1 && mask(i) && before[k] == runs[i] && picked(runs, mask, i).len()
                == k;
        assert(picked(runs, mask, upto)[k] == runs[i]);
    } else {
        assert(mask(upto - 1));
        assert(picked(runs, mask, upto)[k] == runs[upto - 1]);
    }
}

proof fn lemma_picked_in_order(runs: Seq<CachedRun>, mask: spec_fn(int) -> bool, upto: int)
    requires
        runs::in_order(runs),
        0 <= upto <= runs.len(),
    ensures
        runs::in_order(picked(runs, mask, upto)),
        upto > 0 ==> forall|k: int|
            0 <= k < picked(runs, mask, upto).len() ==> (#[trigger] picked(
                runs,
                mask,
                upto,
            )[k]).created_at >= runs[upto - 1].created_at,
    decreases upto,
{
    if upto > 0 {
        lemma_picked_in_order(runs, mask, upto - 1);
        let before = picked(runs, mask, upto - 1);
        let after = picked(runs, mask, upto);
        assert forall|k: int| 0 <= k < after.len() implies (#[trigger] after[k]).created_at
            >= runs[upto - 1].created_at by {
            if k < before.len() {
                assert(after[k] == before[k]);
                assert(upto > 1);
                assert(runs[upto - 2].created_at >= runs[upto - 1].created_at);
            }
        }
    }
}

/// The first completed run stays the first completed one where it is picked.
proof fn lemma_picked_first(runs: Seq<CachedRun>, mask: spec_fn(int) -> bool)
    requires
        runs::first_completed(runs) matches Some(n) ==> mask(n),
    ensures
        runs::first_completed(picked(runs, mask, runs.len() as int)) == (match runs::first_completed(
            runs,
        ) {
            Some(n) => Some(picked(runs, mask, n).len() as int),
            None => None,
        }),
{
    let all = picked(runs, mask, runs.len() as int);
    runs::lemma_first_completed(runs);
    runs::lemma_first_completed(all);
    match runs::first_completed(runs) {
        Some(n) => {
            let place = picked(runs, mask, n).len() as int;
            lemma_picked_len(runs, mask, n + 1, runs.len() as int);
            assert(picked(runs, mask, n + 1)[place] == runs[n]);
            assert(all[place] == runs[n]);
            let m = runs::first_completed(all)->0;
            if m < place {
                lemma_picked_len(runs, mask, n, runs.len() as int);
                assert(all[m] == picked(runs, mask, n)[m]);
                lemma_picked_from(runs, mask, n, m);
                let i = choose|i: int|
                    #![trigger runs[i]]
                    0 <= i < n && mask(i) && picked(runs, mask, n)[m] == runs[i] && picked(
                        runs,
                        mask,
                        i,
                    ).len() == m;
                assert(!runs[i].completed());
            }
        },
        None => {
            if let Some(m) = runs::first_completed(all) {
                lemma_picked_from(runs, mask, runs.len() as int, m);
                let i = choose|i: int|
                    #![trigger runs[i]]
                    0 <= i < runs.len() && mask(i) && all[m] == runs[i] && picked(
                        runs,
                        mask,
                        i,
                    ).len() == m;
                assert(!runs[i].completed());
            }
        },
    }
}

/// Runs that pruning drops may as well be missing from the start.
proof fn lemma_prune_picked(runs: Seq<CachedRun>, mask: spec_fn(int) -> bool, cutoff: int)
    requires
        runs::in_order(runs),
        forall|i: int|
            #![trigger runs[i]]
            0 <= i < runs.len() && !mask(i) ==> runs[i].created_at < cutoff
                && runs::first_completed(runs) != Some(i),
    ensures
        runs::pruned(picked(runs, mask, runs.len() as int), cutoff) == runs::pruned(runs, cutoff),
{
    let len = runs.len() as int;
    let all = picked(runs, mask, len);
    runs::lemma_first_completed(runs);
    if let Some(n) = runs::first_completed(runs) {
        assert(runs[n].completed());
        assert(mask(n));
    }
    lemma_picked_first(runs, mask);
    lemma_picked_in_order(runs, mask, len);
    runs::lemma_newest_first_stays(runs);
    runs::lemma_newest_first_stays(all);
    lemma_picked_len(runs, mask, len, len);
    lemma_kept_of_picked(runs, mask, cutoff, len);
}

proof fn lemma_kept_of_picked(
    runs: Seq<CachedRun>,
    mask: spec_fn(int) -> bool,
    cutoff: int,
    upto: int,
)
    requires
        0 <= upto <= runs.len(),
        runs::first_completed(runs) matches Some(n) ==> 0 <= n < runs.len() && mask(n),
        runs::first_completed(picked(runs, mask, runs.len() as int)) == (match runs::first_completed(
            runs,
        ) {
            Some(n) => Some(picked(runs, mask, n).len() as int),
            None => None,
        }),
        forall|i: int|
            #![trigger runs[i]]
            0 <= i < runs.len() && !mask(i) ==> runs[i].created_at < cutoff
                && runs::first_completed(runs) != Some(i),
    ensures
        runs::kept(
            picked(runs, mask, runs.len() as int),
            cutoff,
            picked(runs, mask, upto).len() as int,
        ) == runs::kept(runs, cutoff, upto),
    decreases upto,
{
    let all = picked(runs, mask, runs.len() as int);
    if upto > 0 {
        lemma_kept_of_picked(runs, mask, cutoff, upto - 1);
        let run = runs[upto - 1];
        let place = picked(runs, mask, upto - 1).len() as int;
        if mask(upto - 1) {
            lemma_picked_len(runs, mask, upto, runs.len() as int);
            assert(picked(runs, mask, upto)[place] == run);
            assert(all[place] == run);
            if let Some(n) = runs::first_completed(runs) {
                // Positions that are picked keep their order, so that one place belongs to one
                // of them.
                if n < upto - 1 {
                    lemma_picked_len(runs, mask, n + 1, upto - 1);
                    assert(picked(runs, mask, n).len() < picked(runs, mask, n + 1).len());
                } else if n > upto - 1 {
                    lemma_picked_len(runs, mask, upto, n);
                    assert(place < picked(runs, mask, upto).len());
                }
            }
        } else {
            assert(run.created_at < cutoff);
        }
    }
}

/// Pruning by an earlier and then by a later point in time is pruning by the later one.
pub proof fn law_prune_by_later_cutoff(runs: Seq<CachedRun>, early: int, late: int)
    requires
        early <= late,
    ensures
        runs::pruned(runs::pruned(runs, early), late) == runs::pruned(runs, late),
{
    let sorted = runs::newest_first(runs);
    runs::law_newest_first(runs);
    runs::lemma_newest_first_stays(sorted);
    lemma_kept_picked(sorted, early, sorted.len() as int);
    lemma_prune_picked(sorted, stays(sorted, early), late);
}

/// Whether runs are a history: the newest first, each with an identifier of its own.
pub open spec fn is_history(runs: Seq<CachedRun>) -> bool {
    &&& runs::in_order(runs)
    &&& forall|i: int| 0 <= i < runs.len() ==> (#[trigger] runs[i]).id is Some
    &&& forall|i: int, j: int|
        0 <= i < j < runs.len() ==> (#[trigger] runs[i]).id != (#[trigger] runs[j]).id
}

/// Whether a history continues an earlier one: some runs are new, and of the others those that
/// were completed have not changed.
pub open spec fn continues(history: Seq<CachedRun>, earlier: Seq<CachedRun>) -> bool {
    let new = history.len() - earlier.len();
    &&& new >= 0
    &&& forall|i: int|
        #![trigger earlier[i]]
        #![trigger history[new + i]]
        0 <= i < earlier.len() ==> {
            &&& history[new + i].id == earlier[i].id
            &&& history[new + i].created_at == earlier[i].created_at
            &&& earlier[i].completed() ==> history[new + i] == earlier[i]
        }
}

proof fn lemma_picked_identified(
    history: Seq<CachedRun>,
    earlier: Seq<CachedRun>,
    cutoff: int,
    upto: int,
)
    requires
        is_history(history),
        continues(history, earlier),
        0 <= upto <= earlier.len(),
    ensures
        runs::identified(picked(earlier, stays(earlier, cutoff), upto)) == picked(
            earlier,
            stays(earlier, cutoff),
            upto,
        ),
    decreases upto,
{
    reveal(Seq::filter);
    if upto > 0 {
        lemma_picked_identified(history, earlier, cutoff, upto - 1);
        assert(history[history.len() - earlier.len() + upto - 1].id == earlier[upto - 1].id);
        let before = picked(earlier, stays(earlier, cutoff), upto - 1);
        assert(before.push(earlier[upto - 1]).drop_last() =~= before);
    }
}

/// Whether no page of a history ends between runs of one time the later of which had not
/// finished when it was cached.
pub open spec fn pages_part_times(
    history: Seq<CachedRun>,
    earlier: Seq<CachedRun>,
    cutoff: int,
) -> bool {
    let new = history.len() - earlier.len();
    forall|i: int, end: int|
        #![trigger earlier[i], history[end - 1]]
        0 <= i < earlier.len() && !earlier[i].completed() && earlier[i].created_at >= cutoff && 0
            < end <= new + i && end % (runs::RUNS_PER_PAGE as int) == 0 ==> history[end
            - 1].created_at > earlier[i].created_at
}

/// Whether the newest completed run of a history is none that was so old when it had not finished
/// that it was not cached.
pub open spec fn none_finishes_late(
    history: Seq<CachedRun>,
    earlier: Seq<CachedRun>,
    cutoff: int,
) -> bool {
    let new = history.len() - earlier.len();
    forall|i: int|
        #![trigger earlier[i]]
        0 <= i < earlier.len() && runs::first_completed(history) == Some(new + i)
            ==> earlier[i].completed() || earlier[i].created_at >= cutoff
}

proof fn lemma_distinct_history(runs: Seq<CachedRun>)
    requires
        is_history(runs),
    ensures
        runs::distinct_runs(runs) == runs,
    decreases runs.len(),
{
    if runs.len() > 0 {
        let front = runs.drop_last();
        assert(is_history(front));
        lemma_distinct_history(front);
        let last = runs.last();
        assert(runs[runs.len() - 1].id is Some);
        if runs::repeats(front, last) {
            let i = choose|i: int|
                0 <= i < front.len() && (#[trigger] front[i]).id == Some(last.id->0);
            assert(runs[i].id != runs[runs.len() - 1].id);
        }
        assert(front.push(last) =~= runs);
    } else {
        assert(runs::distinct_runs(runs) =~= runs);
    }
}

/// The positions of a history that are fetched, or cached from an earlier one.
pub open spec fn is_held(fetched: int, new: int, earlier: Seq<CachedRun>, cutoff: int) -> spec_fn(
    int,
) -> bool {
    |i: int| i < fetched || i >= new && stays(earlier, cutoff)(i - new)
}

proof fn lemma_held_start(
    runs: Seq<CachedRun>,
    fetched: int,
    new: int,
    earlier: Seq<CachedRun>,
    cutoff: int,
    upto: int,
)
    requires
        0 <= upto <= fetched <= runs.len(),
    ensures
        picked(runs, is_held(fetched, new, earlier, cutoff), upto) == runs.take(upto),
    decreases upto,
{
    if upto > 0 {
        lemma_held_start(runs, fetched, new, earlier, cutoff, upto - 1);
        assert(runs.take(upto) =~= runs.take(upto - 1).push(runs[upto - 1]));
    } else {
        assert(runs.take(0) =~= Seq::empty());
    }
}

proof fn lemma_held_gap(
    runs: Seq<CachedRun>,
    fetched: int,
    new: int,
    earlier: Seq<CachedRun>,
    cutoff: int,
    upto: int,
)
    requires
        0 <= fetched <= upto <= runs.len(),
        upto <= new || upto == fetched,
    ensures
        picked(runs, is_held(fetched, new, earlier, cutoff), upto) == runs.take(fetched),
    decreases upto,
{
    if upto > fetched {
        lemma_held_gap(runs, fetched, new, earlier, cutoff, upto - 1);
    } else {
        lemma_held_start(runs, fetched, new, earlier, cutoff, upto);
    }
}

/// A history as far as it was fetched, with what is cached of the rest.
pub open spec fn patched(history: Seq<CachedRun>, fetched: int, earlier: Seq<CachedRun>) -> Seq<
    CachedRun,
> {
    let new = history.len() - earlier.len();
    Seq::new(
        history.len(),
        |i: int|
            if i < fetched || i < new {
                history[i]
            } else {
                earlier[i - new]
            },
    )
}

/// Merging what was fetched with what is cached of an earlier history picks runs of the history
/// as it is known.
proof fn lemma_merge_picks(
    history: Seq<CachedRun>,
    earlier: Seq<CachedRun>,
    cutoff: int,
    fetched: int,
    upto: int,
)
    requires
        is_history(history),
        continues(history, earlier),
        0 <= fetched <= history.len(),
        0 <= upto <= earlier.len(),
    ensures
        ({
            let new = history.len() - earlier.len();
            let end = if fetched < new + upto {
                new + upto
            } else {
                fetched
            };
            runs::distinct_runs(
                history.take(fetched) + picked(earlier, stays(earlier, cutoff), upto),
            ) == picked(
                patched(history, fetched, earlier),
                is_held(fetched, new, earlier, cutoff),
                end,
            )
        }),
    decreases upto,
{
    let new = history.len() - earlier.len();
    let known = patched(history, fetched, earlier);
    let mask = is_held(fetched, new, earlier, cutoff);
    let first = history.take(fetched);
    let cached = picked(earlier, stays(earlier, cutoff), upto);
    assert(known.take(fetched) =~= first);
    assert(is_history(first)) by {
        assert forall|i: int, j: int| 0 <= i <= j < first.len() implies (
        #[trigger] first[i]).created_at >= (#[trigger] first[j]).created_at by {
            assert(history[i].created_at >= history[j].created_at);
        }
        assert forall|i: int| 0 <= i < first.len() implies (#[trigger] first[i]).id is Some by {
            assert(history[i].id is Some);
        }
        assert forall|i: int, j: int| 0 <= i < j < first.len() implies (#[trigger] first[i]).id
            != (#[trigger] first[j]).id by {
            assert(history[i].id != history[j].id);
        }
    }
    lemma_distinct_history(first);
    if upto == 0 {
        assert(first + cached =~= first);
        if fetched < new {
            lemma_held_gap(known, fetched, new, earlier, cutoff, new);
        } else {
            lemma_held_gap(known, fetched, new, earlier, cutoff, fetched);
        }
    } else {
        lemma_merge_picks(history, earlier, cutoff, fetched, upto - 1);
        let before = picked(earlier, stays(earlier, cutoff), upto - 1);
        let run = earlier[upto - 1];
        let place = new + upto - 1;
        assert(history[place].id == run.id);
        assert(history[place].id is Some);
        if stays(earlier, cutoff)(upto - 1) {
            let all = first + before;
            assert(first + cached =~= all.push(run));
            assert(all.push(run).drop_last() =~= all);
            if place < fetched {
                assert(first[place].id == run.id);
                assert(all[place] == first[place]);
                assert(cache::has_run(all, run.id->0));
            } else {
                if runs::repeats(all, run) {
                    let k = choose|k: int|
                        0 <= k < all.len() && (#[trigger] all[k]).id == Some(run.id->0);
                    if k < fetched {
                        assert(all[k] == history[k]);
                        assert(history[k].id != history[place].id);
                    } else {
                        let m = k - fetched;
                        assert(all[k] == before[m]);
                        lemma_picked_from(earlier, stays(earlier, cutoff), upto - 1, m);
                        let i = choose|i: int|
                            #![trigger earlier[i]]
                            0 <= i < upto - 1 && stays(earlier, cutoff)(i) && before[m]
                                == earlier[i] && picked(
                                earlier,
                                stays(earlier, cutoff),
                                i,
                            ).len() == m;
                        assert(history[new + i].id == earlier[i].id);
                        assert(history[new + i].id != history[place].id);
                    }
                }
                assert(mask(place));
                assert(known[place] == run);
            }
        } else {
            if place >= fetched {
                assert(!mask(place));
            }
        }
    }
}

/// Where the newest completed run was fetched and all that was not fetched is too old, what was
/// not fetched makes no difference.
proof fn lemma_old_rest(first: Seq<CachedRun>, rest: Seq<CachedRun>, cutoff: int, upto: int)
    requires
        runs::first_completed(first) is Some,
        forall|i: int| 0 <= i < rest.len() ==> (#[trigger] rest[i]).created_at < cutoff,
        first.len() <= upto <= first.len() + rest.len(),
    ensures
        runs::kept(first + rest, cutoff, upto) == runs::kept(first, cutoff, first.len() as int),
    decreases upto,
{
    let all = first + rest;
    lemma_first_of(first, rest);
    if upto > first.len() {
        lemma_old_rest(first, rest, cutoff, upto - 1);
        runs::lemma_first_completed(first);
        assert(all[upto - 1] == rest[upto - 1 - first.len()]);
    } else {
        lemma_kept_start(first, rest, cutoff, upto);
    }
}

proof fn lemma_first_of(first: Seq<CachedRun>, rest: Seq<CachedRun>)
    requires
        runs::first_completed(first) is Some,
    ensures
        runs::first_completed(first + rest) == runs::first_completed(first),
    decreases rest.len(),
{
    if rest.len() > 0 {
        lemma_first_of(first, rest.drop_last());
        assert((first + rest).drop_last() =~= first + rest.drop_last());
    } else {
        assert(first + rest =~= first);
    }
}

proof fn lemma_kept_start(first: Seq<CachedRun>, rest: Seq<CachedRun>, cutoff: int, upto: int)
    requires
        runs::first_completed(first + rest) == runs::first_completed(first),
        0 <= upto <= first.len(),
    ensures
        runs::kept(first + rest, cutoff, upto) == runs::kept(first, cutoff, upto),
    decreases upto,
{
    if upto > 0 {
        lemma_kept_start(first, rest, cutoff, upto - 1);
        assert((first + rest)[upto - 1] == first[upto - 1]);
    }
}

proof fn lemma_same_picked(
    a: Seq<CachedRun>,
    b: Seq<CachedRun>,
    mask: spec_fn(int) -> bool,
    upto: int,
)
    requires
        forall|i: int| #![trigger a[i]] 0 <= i < upto && mask(i) ==> a[i] == b[i],
    ensures
        picked(a, mask, upto) == picked(b, mask, upto),
    decreases upto,
{
    if upto > 0 {
        lemma_same_picked(a, b, mask, upto - 1);
        if mask(upto - 1) {
            assert(a[upto - 1] == b[upto - 1]);
        }
    }
}

/// The page of a history that follows some runs of it.
pub open spec fn page_after(history: Seq<CachedRun>, fetched: int) -> Seq<CachedRun> {
    history.subrange(fetched, page_end(history, fetched))
}

/// Where the page of a history ends that follows some runs of it.
pub open spec fn page_end(history: Seq<CachedRun>, fetched: int) -> int {
    if fetched + runs::RUNS_PER_PAGE < history.len() {
        fetched + runs::RUNS_PER_PAGE
    } else {
        history.len() as int
    }
}

proof fn lemma_known_in_order(history: Seq<CachedRun>, fetched: int, earlier: Seq<CachedRun>)
    requires
        is_history(history),
        continues(history, earlier),
        0 <= fetched <= history.len(),
    ensures
        runs::in_order(patched(history, fetched, earlier)),
        runs::in_order(earlier),
        forall|i: int|
            0 <= i < history.len() ==> (#[trigger] patched(history, fetched, earlier)[i]).created_at
                == history[i].created_at,
{
    let new = history.len() - earlier.len();
    let known = patched(history, fetched, earlier);
    assert forall|i: int| 0 <= i < history.len() implies (#[trigger] known[i]).created_at
        == history[i].created_at by {
        if i >= new {
            assert(history[new + (i - new)].created_at == earlier[i - new].created_at);
        }
    }
    assert forall|i: int, j: int| 0 <= i <= j < known.len() implies (
    #[trigger] known[i]).created_at >= (#[trigger] known[j]).created_at by {
        assert(history[i].created_at >= history[j].created_at);
    }
    assert forall|i: int, j: int| 0 <= i <= j < earlier.len() implies (
    #[trigger] earlier[i]).created_at >= (#[trigger] earlier[j]).created_at by {
        assert(history[new + i].created_at >= history[new + j].created_at);
    }
}

proof fn lemma_ends_past_cutoff(
    history: Seq<CachedRun>,
    earlier: Seq<CachedRun>,
    earlier_cutoff: int,
    cutoff: int,
    fetched: int,
)
    requires
        is_history(history),
        continues(history, earlier),
        0 < fetched <= history.len(),
        history[fetched - 1].created_at < cutoff,
        runs::first_completed(history.take(fetched)) is Some,
    ensures
        ({
            let new = history.len() - earlier.len();
            runs::pruned(
                picked(
                    patched(history, fetched, earlier),
                    is_held(fetched, new, earlier, earlier_cutoff),
                    history.len() as int,
                ),
                cutoff,
            ) == runs::pruned(history, cutoff)
        }),
{
    let len = history.len() as int;
    let new = history.len() - earlier.len();
    let known = patched(history, fetched, earlier);
    let mask = is_held(fetched, new, earlier, earlier_cutoff);
    let all = picked(known, mask, len);
    let first = history.take(fetched);
    lemma_known_in_order(history, fetched, earlier);
    lemma_held_start(known, fetched, new, earlier, earlier_cutoff, fetched);
    assert(known.take(fetched) =~= first);
    lemma_picked_len(known, mask, fetched, len);
    lemma_picked_in_order(known, mask, len);
    let rest = all.skip(fetched);
    assert(all =~= first + rest);
    assert forall|k: int| 0 <= k < rest.len() implies (#[trigger] rest[k]).created_at < cutoff by {
        lemma_picked_from(known, mask, len, fetched + k);
        let i = choose|i: int|
            #![trigger known[i]]
            0 <= i < len && mask(i) && all[fetched + k] == known[i] && picked(
                known,
                mask,
                i,
            ).len() == fetched + k;
        if i < fetched {
            lemma_held_start(known, fetched, new, earlier, earlier_cutoff, i);
            assert(known.take(i).len() == i);
        }
        assert(history[fetched - 1].created_at >= history[i].created_at);
    }
    lemma_old_rest(first, rest, cutoff, all.len() as int);
    runs::lemma_newest_first_stays(all);
    let last = history.skip(fetched);
    assert(history =~= first + last);
    assert forall|k: int| 0 <= k < last.len() implies (#[trigger] last[k]).created_at < cutoff by {
        assert(history[fetched - 1].created_at >= history[fetched + k].created_at);
    }
    lemma_old_rest(first, last, cutoff, len);
    runs::lemma_newest_first_stays(history);
}

proof fn lemma_ends_at_known(
    history: Seq<CachedRun>,
    earlier: Seq<CachedRun>,
    earlier_cutoff: int,
    cutoff: int,
    fetched: int,
)
    requires
        is_history(history),
        continues(history, earlier),
        earlier_cutoff <= cutoff,
        none_finishes_late(history, earlier, earlier_cutoff),
        history.len() - earlier.len() <= fetched <= history.len(),
        forall|i: int|
            #![trigger earlier[i]]
            0 <= i < earlier.len() && history.len() - earlier.len() + i >= fetched && stays(
                earlier,
                earlier_cutoff,
            )(i) ==> earlier[i].completed(),
    ensures
        ({
            let new = history.len() - earlier.len();
            runs::pruned(
                picked(
                    patched(history, fetched, earlier),
                    is_held(fetched, new, earlier, earlier_cutoff),
                    history.len() as int,
                ),
                cutoff,
            ) == runs::pruned(history, cutoff)
        }),
{
    let len = history.len() as int;
    let new = history.len() - earlier.len();
    let known = patched(history, fetched, earlier);
    let mask = is_held(fetched, new, earlier, earlier_cutoff);
    assert forall|i: int| #![trigger known[i]] 0 <= i < len && mask(i) implies known[i]
        == history[i] by {
        if i >= fetched {
            assert(earlier[i - new].completed());
            assert(history[new + (i - new)] == earlier[i - new]);
        }
    }
    lemma_same_picked(known, history, mask, len);
    runs::lemma_first_completed(history);
    runs::lemma_first_completed(earlier);
    assert forall|i: int|
        #![trigger history[i]]
        0 <= i < len && !mask(i) implies history[i].created_at < cutoff && runs::first_completed(
        history,
    ) != Some(i) by {
        let k = i - new;
        assert(history[new + k].created_at == earlier[k].created_at);
        assert(!stays(earlier, earlier_cutoff)(k));
        if runs::first_completed(history) == Some(i) {
            assert(runs::first_completed(history) == Some(new + k));
            assert(earlier[k].completed());
            let m = runs::first_completed(earlier)->0;
            assert(m < k) by {
                if m > k {
                    assert(!earlier[k].completed());
                }
            }
            assert(history[new + m] == earlier[m]);
        }
    }
    lemma_prune_picked(history, mask, cutoff);
}

/// A fetch comes to what the whole history of a workflow comes to, wherever it ends, also where
/// it starts from what was kept of an earlier history: each page is newest-first, and completed
/// runs have not changed since. Left out are histories in which a page ends between runs of one
/// time, and those in which a run finished that was too old to be cached.
pub proof fn law_fetch_comes_to_whole_history(
    fetch: FetchModel,
    history: Seq<CachedRun>,
    earlier: Seq<CachedRun>,
    earlier_cutoff: int,
    etag: Option<Seq<char>>,
)
    requires
        is_history(history),
        continues(history, earlier),
        fetch.cached.runs == runs::pruned(earlier, earlier_cutoff),
        earlier_cutoff <= fetch.cutoff(),
        pages_part_times(history, earlier, earlier_cutoff),
        none_finishes_late(history, earlier, earlier_cutoff),
        fetch.fetched.len() <= history.len(),
        fetch.fetched == history.take(fetch.fetched.len() as int),
        fetch.fetched.len() as int % (runs::RUNS_PER_PAGE as int) == 0,
        fetch.ends_with(page_after(history, fetch.fetched.len() as int)),
    ensures
        ({
            let after = fetch.with_page(page_after(history, fetch.fetched.len() as int), etag);
            after.outcome() == after.settled(history)
        }),
{
    let start = fetch.fetched.len() as int;
    let end = page_end(history, start);
    let page = page_after(history, start);
    let after = fetch.with_page(page, etag);
    let len = history.len() as int;
    let new = history.len() - earlier.len();
    let cutoff = fetch.cutoff();
    let cached = fetch.cached.runs;
    let known = patched(history, end, earlier);
    let mask = is_held(end, new, earlier, earlier_cutoff);
    assert(after.fetched =~= history.take(end));
    lemma_known_in_order(history, end, earlier);
    runs::lemma_newest_first_stays(earlier);
    lemma_kept_picked(earlier, earlier_cutoff, earlier.len() as int);
    lemma_merge_picks(history, earlier, earlier_cutoff, end, earlier.len() as int);
    lemma_picked_identified(history, earlier, earlier_cutoff, earlier.len() as int);
    assert(runs::merged(cached, after.fetched) == picked(known, mask, len));
    if end == len {
        lemma_held_start(known, end, new, earlier, earlier_cutoff, end);
        assert(known.take(end) =~= history);
    } else if crate::fetch::some_before(page, cutoff) && crate::fetch::some_completed(
        fetch.fetched + page,
    ) {
        let k = choose|k: int| 0 <= k < page.len() && (#[trigger] page[k]).created_at < cutoff;
        assert(history[start + k].created_at >= history[end - 1].created_at);
        assert(fetch.fetched + page =~= history.take(end));
        runs::lemma_first_completed(history.take(end));
        lemma_ends_past_cutoff(history, earlier, earlier_cutoff, cutoff, end);
    } else {
        let k = choose|k: int|
            0 <= k < page.len() && (#[trigger] page[k]).id is Some && cache::has_run(
                cached,
                page[k].id->0,
            );
        let m = choose|m: int| 0 <= m < cached.len() && (#[trigger] cached[m]).id == page[k].id;
        lemma_picked_from(earlier, stays(earlier, earlier_cutoff), earlier.len() as int, m);
        let e = choose|e: int|
            #![trigger earlier[e]]
            0 <= e < earlier.len() && stays(earlier, earlier_cutoff)(e) && cached[m] == earlier[e]
                && picked(earlier, stays(earlier, earlier_cutoff), e).len() == m;
        assert(history[new + e].id == earlier[e].id);
        assert(history[start + k] == page[k]);
        assert(new + e == start + k) by {
            if new + e < start + k {
                assert(history[new + e].id != history[start + k].id);
            } else if new + e > start + k {
                assert(history[start + k].id != history[new + e].id);
            }
        }
        cache::lemma_oldest_open(cached);
        runs::lemma_first_completed(earlier);
        assert forall|i: int|
            #![trigger earlier[i]]
            0 <= i < earlier.len() && new + i >= end && stays(earlier, earlier_cutoff)(
                i,
            ) implies earlier[i].completed() by {
            if !earlier[i].completed() {
                assert(earlier[i].created_at >= earlier_cutoff);
                let place = picked(earlier, stays(earlier, earlier_cutoff), i).len() as int;
                lemma_picked_len(
                    earlier,
                    stays(earlier, earlier_cutoff),
                    i + 1,
                    earlier.len() as int,
                );
                assert(picked(earlier, stays(earlier, earlier_cutoff), i + 1)[place]
                    == earlier[i]);
                assert(cached[place] == earlier[i]);
                let t = cache::oldest_open(cached)->0;
                assert(t <= cached[place].created_at);
                let x = choose|x: int|
                    0 <= x < page.len() && (#[trigger] page[x]).created_at < t + 1;
                assert(history[start + x].created_at >= history[end - 1].created_at);
                assert(history[end - 1].created_at > earlier[i].created_at);
            }
        }
        lemma_ends_at_known(history, earlier, earlier_cutoff, cutoff, end);
    }
}

/// Where a workflow has had no new run and none has changed, what is cached comes to what the
/// whole history comes to.
pub proof fn law_cache_comes_to_whole_history(
    fetch: FetchModel,
    history: Seq<CachedRun>,
    earlier_cutoff: int,
)
    requires
        fetch.cached.runs == runs::pruned(history, earlier_cutoff),
        earlier_cutoff <= fetch.cutoff(),
    ensures
        fetch.unchanged() == fetch.settled(history),
{
    law_prune_by_later_cutoff(history, earlier_cutoff, fetch.cutoff());
}

/// What a fetch without a cache comes to is what the whole history comes to.
pub proof fn law_first_fetch_comes_to_whole_history(
    fetch: FetchModel,
    history: Seq<CachedRun>,
    etag: Option<Seq<char>>,
)
    requires
        is_history(history),
        fetch.cached.runs.len() == 0,
        fetch.fetched.len() <= history.len(),
        fetch.fetched == history.take(fetch.fetched.len() as int),
        fetch.fetched.len() as int % (runs::RUNS_PER_PAGE as int) == 0,
        fetch.ends_with(page_after(history, fetch.fetched.len() as int)),
    ensures
        ({
            let after = fetch.with_page(page_after(history, fetch.fetched.len() as int), etag);
            after.outcome() == after.settled(history)
        }),
{
    let earlier = Seq::<CachedRun>::empty();
    assert(runs::newest_first(earlier) =~= earlier);
    assert(runs::pruned(earlier, fetch.cutoff()) =~= fetch.cached.runs);
    law_fetch_comes_to_whole_history(fetch, history, earlier, fetch.cutoff(), etag);
}

} // verus!
