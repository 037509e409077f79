//! What is kept of runs, of commands and of findings, and what a view shows.
use vstd::prelude::*;
use vstd::string::*;

use crate::actions;
use crate::cache::{CacheEntry, CacheFile, CachedModel, CachedRun};
use crate::command;
use crate::counting::says;
use crate::fetch::FetchModel;
use crate::github::{RunStatus, TriageModel, Workflow};
use crate::paths::{self, Base, Environment};
use crate::query::{self, NumeralsModel};
use crate::runs;
use crate::state;
use crate::text;
use crate::tui::{AppModel, EffectModel, TriageTarget};
use crate::view::ListModel;

verus! {

/// Whether a run is over.
pub open spec fn is_over(run: CachedRun) -> bool {
    says(run.status, "completed"@)
}

proof fn lemma_kept_are(list: Seq<CachedRun>, cutoff: int, upto: int, run: CachedRun)
    requires
        0 <= upto <= list.len(),
    ensures
        runs::kept(list, cutoff, upto).contains(run) <==> exists|i: int|
            0 <= i < upto && #[trigger] list[i] == run && (run.created_at >= cutoff
                || runs::first_completed(list) == Some(i)),
    decreases upto,
{
    if upto > 0 {
        lemma_kept_are(list, cutoff, upto - 1, run);
        let before = runs::kept(list, cutoff, upto - 1);
        let all = runs::kept(list, cutoff, upto);
        if all.contains(run) {
            let n = choose|n: int| 0 <= n < all.len() && all[n] == run;
            if n < before.len() {
                assert(before[n] == run);
                assert(before.contains(run));
            } else {
                assert(list[upto - 1] == run);
            }
        }
        if exists|i: int|
            0 <= i < upto && #[trigger] list[i] == run && (run.created_at >= cutoff
                || runs::first_completed(list) == Some(i)) {
            let i = choose|i: int|
                0 <= i < upto && #[trigger] list[i] == run && (run.created_at >= cutoff
                    || runs::first_completed(list) == Some(i));
            if i < upto - 1 {
                assert(before.contains(run));
                let n = choose|n: int| 0 <= n < before.len() && before[n] == run;
                assert(all[n] == run);
            } else {
                assert(all[before.len() as int] == run);
            }
        }
    }
}

/// Pruning keeps the runs of the window and, of older ones, none but one that is over while no
/// newer run is.
pub proof fn law_prune_keeps_window(list: Seq<CachedRun>, cutoff: int, run: CachedRun)
    ensures
        run.created_at >= cutoff ==> runs::pruned(list, cutoff).contains(run) == list.contains(run),
        run.created_at < cutoff && runs::pruned(list, cutoff).contains(run) ==> list.contains(run)
            && is_over(run) && (forall|other: CachedRun|
            #[trigger] list.contains(other) && is_over(other) ==> other.created_at
                <= run.created_at),
{
    broadcast use vstd::seq_lib::group_to_multiset_ensures;

    let sorted = runs::newest_first(list);
    runs::law_newest_first(list);
    runs::lemma_first_completed(sorted);
    lemma_kept_are(sorted, cutoff, sorted.len() as int, run);
    assert(sorted.contains(run) == list.contains(run)) by {
        assert(sorted.to_multiset().contains(run) == list.to_multiset().contains(run));
    }
    if list.contains(run) {
        let i = choose|i: int| 0 <= i < sorted.len() && sorted[i] == run;
        assert(sorted[i] == run);
    }
    if runs::pruned(list, cutoff).contains(run) {
        let i = choose|i: int|
            0 <= i < sorted.len() && #[trigger] sorted[i] == run && (run.created_at >= cutoff
                || runs::first_completed(sorted) == Some(i));
        assert(sorted.contains(run));
        if run.created_at < cutoff {
            assert forall|other: CachedRun|
                #[trigger] list.contains(other) && is_over(other) implies other.created_at
                <= run.created_at by {
                assert(sorted.to_multiset().contains(other) == list.to_multiset().contains(other));
                let j = choose|j: int| 0 <= j < sorted.len() && sorted[j] == other;
                if j < i {
                    assert(!sorted[j].completed());
                }
                assert(sorted[i].created_at >= sorted[j].created_at);
            }
        }
    }
}

/// Whether a page holds a run that was created before a point in time.
pub open spec fn reaches_before(page: Seq<CachedRun>, t: int) -> bool {
    exists|i: int| 0 <= i < page.len() && (#[trigger] page[i]).created_at < t
}

/// Whether some run of a list is over.
pub open spec fn some_over(list: Seq<CachedRun>) -> bool {
    exists|i: int| 0 <= i < list.len() && is_over(#[trigger] list[i])
}

/// Whether a page holds a run of those that are known.
pub open spec fn meets(page: Seq<CachedRun>, known: Seq<CachedRun>) -> bool {
    exists|i: int, j: int|
        0 <= i < page.len() && 0 <= j < known.len() && (#[trigger] page[i]).id is Some && page[i].id
            == (#[trigger] known[j]).id
}

/// A fetch ends with a page that is not full, with one that reaches further back than fourteen
/// days once a run is found that is over, and with one that meets what is cached and reaches back
/// to all cached runs that are not over. It goes on behind every other page.
pub proof fn law_fetch_ends_where_history_is_known(fetch: FetchModel, page: Seq<CachedRun>)
    ensures
        fetch.ends_with(page) <==> {
            ||| page.len() < 100
            ||| reaches_before(page, fetch.now - 14 * 24 * 3_600_000_000_000) && some_over(
                fetch.fetched + page,
            )
            ||| meets(page, fetch.cached.runs) && ((forall|j: int|
                0 <= j < fetch.cached.runs.len() ==> is_over(#[trigger] fetch.cached.runs[j])) || (
            exists|i: int|
                0 <= i < page.len() && forall|j: int|
                    0 <= j < fetch.cached.runs.len() && !is_over(#[trigger] fetch.cached.runs[j])
                        ==> (#[trigger] page[i]).created_at <= fetch.cached.runs[j].created_at))
        },
{
    let known = fetch.cached.runs;
    let all = fetch.fetched + page;
    crate::cache::lemma_oldest_open(known);
    assert(crate::fetch::some_before(page, fetch.cutoff()) == reaches_before(
        page,
        fetch.now - 14 * 24 * 3_600_000_000_000,
    ));
    if crate::fetch::some_completed(all) {
        let i = choose|i: int| 0 <= i < all.len() && (#[trigger] all[i]).completed();
        assert(is_over(all[i]));
    }
    if some_over(all) {
        let i = choose|i: int| 0 <= i < all.len() && is_over(#[trigger] all[i]);
        assert(all[i].completed());
    }
    if crate::fetch::some_known(page, known) {
        let i = choose|i: int|
            0 <= i < page.len() && (#[trigger] page[i]).id is Some && crate::cache::has_run(
                known,
                page[i].id->0,
            );
        let j = choose|j: int|
            0 <= j < known.len() && (#[trigger] known[j]).id == Some(page[i].id->0);
        assert(page[i].id == known[j].id);
    }
    if meets(page, known) {
        let (i, j) = choose|i: int, j: int|
            0 <= i < page.len() && 0 <= j < known.len() && (#[trigger] page[i]).id is Some
                && page[i].id == (#[trigger] known[j]).id;
        assert(known[j].id == Some(page[i].id->0));
        assert(crate::cache::has_run(known, page[i].id->0));
    }
    match crate::cache::oldest_open(known) {
        None => {
            assert forall|j: int| 0 <= j < known.len() implies is_over(#[trigger] known[j]) by {
                assert(known[j].completed());
            }
        },
        Some(t) => {
            let k = choose|k: int|
                0 <= k < known.len() && !(#[trigger] known[k]).completed() && known[k].created_at
                    == t;
            assert(!is_over(known[k]));
            if crate::fetch::some_before(page, t + 1) {
                let i = choose|i: int|
                    0 <= i < page.len() && (#[trigger] page[i]).created_at < t + 1;
                assert forall|j: int|
                    0 <= j < known.len() && !is_over(#[trigger] known[j]) implies page[i].created_at
                    <= known[j].created_at by {
                    assert(!known[j].completed());
                }
            }
            if exists|i: int|
                0 <= i < page.len() && forall|j: int|
                    0 <= j < known.len() && !is_over(#[trigger] known[j]) ==> (
                    #[trigger] page[i]).created_at <= known[j].created_at {
                let i = choose|i: int|
                    0 <= i < page.len() && forall|j: int|
                        0 <= j < known.len() && !is_over(#[trigger] known[j]) ==> (
                        #[trigger] page[i]).created_at <= known[j].created_at;
                assert(page[i].created_at <= known[k].created_at);
                assert(crate::fetch::some_before(page, t + 1));
            }
        },
    }
}

/// A fetch asks for its pages one after the other, and only for the first with the validator that
/// is cached.
pub proof fn law_fetch_asks_for_pages(fetch: FetchModel)
    ensures
        fetch.next_request().0 == fetch.runs_path + "&page="@ + text::decimal(fetch.page_number),
        fetch.page_number == 1 ==> fetch.next_request().1 == fetch.etag,
        fetch.page_number != 1 ==> fetch.next_request().1 is None,
{
}

/// A cache file of another version, or one that cannot be read, counts as empty; of several entries
/// of one key the last counts.
pub proof fn law_cache_file_counts(
    version: u32,
    entries: Vec<CacheEntry>,
    key: Seq<char>,
    k: int,
)
    requires
        0 <= k < entries@.len(),
        entries@[k].key@ == key,
        forall|m: int| k < m < entries@.len() ==> (#[trigger] entries@[m]).key@ != key,
    ensures
        CacheFile::Missing.usable() == Map::<Seq<char>, CachedModel>::empty(),
        CacheFile::Corrupt.usable() == Map::<Seq<char>, CachedModel>::empty(),
        version != 1 ==> (CacheFile::Parsed { version, entries }).usable() == Map::<
            Seq<char>,
            CachedModel,
        >::empty(),
        version == 1 ==> (CacheFile::Parsed { version, entries }).usable().contains_key(key)
            && (CacheFile::Parsed { version, entries }).usable()[key] == entries@[k].runs@,
{
    lemma_last_entry(entries@, key, k);
}

proof fn lemma_last_entry(entries: Seq<CacheEntry>, key: Seq<char>, k: int)
    requires
        0 <= k < entries.len(),
        entries[k].key@ == key,
        forall|m: int| k < m < entries.len() ==> (#[trigger] entries[m]).key@ != key,
    ensures
        crate::cache::entries_map(entries).contains_key(key),
        crate::cache::entries_map(entries)[key] == entries[k].runs@,
    decreases entries.len(),
{
    if k < entries.len() - 1 {
        let front = entries.drop_last();
        assert(entries[entries.len() - 1].key@ != key);
        lemma_last_entry(front, key, k);
    }
}

/// A command is added at the end of the history unless it is the last one already; of a longer
/// history the latest thousand commands stay, in their order.
pub proof fn law_history_keeps_latest(history: Seq<Seq<char>>, command: Seq<char>)
    requires
        history.len() <= 1000,
    ensures
        history.len() > 0 && history.last() == command ==> command::recorded(history, command)
            == history,
        (history.len() == 0 || history.last() != command) && history.len() < 1000
            ==> command::recorded(history, command) == history.push(command),
        (history.len() == 0 || history.last() != command) && history.len() == 1000
            ==> command::recorded(history, command) == history.skip(1).push(command),
{
    if history.len() == 1000 {
        assert(history.push(command).skip(1) =~= history.skip(1).push(command));
    }
}

/// A view shows a workflow exactly where the view holds it and its filter, if it has one, lets it
/// through.
pub proof fn law_views_show_what_passes(
    view: ListModel,
    workflows: Seq<Workflow>,
    numerals: NumeralsModel,
    workflow: Workflow,
)
    ensures
        view.visible(workflows, numerals).contains(workflow) <==> workflows.contains(workflow)
            && view.workflow_ids.contains(workflow.id) && (match view.filter_expression {
            Some(filter) => query::filter_holds(filter, workflow, numerals),
            None => true,
        }),
{
    let p = |w: Workflow| query::passes(view.filter_expression, w, numerals);
    let q = |w: Workflow| view.workflow_ids.contains(w.id);
    let kept = workflows.filter(p);
    let selected = query::selection(
        workflows,
        view.filter_expression,
        view.sort_spec,
        numerals,
    );
    if let Some(sort) = view.sort_spec {
        let sorting = query::Sorting {
            field: query::normal_of(sort.field),
            descending: sort.descending,
            numerals,
        };
        query::law_sort_permutes(sorting, kept);
        lemma_same_members(selected, kept, workflow);
    }
    lemma_filtered(workflows, p, workflow);
    lemma_filtered(selected, q, workflow);
}

proof fn lemma_same_members(a: Seq<Workflow>, b: Seq<Workflow>, workflow: Workflow)
    requires
        a.to_multiset() == b.to_multiset(),
    ensures
        a.contains(workflow) == b.contains(workflow),
{
    broadcast use vstd::seq_lib::group_to_multiset_ensures;

    assert(a.contains(workflow) <==> a.to_multiset().contains(workflow));
    assert(b.contains(workflow) <==> b.to_multiset().contains(workflow));
}

proof fn lemma_filtered<A>(list: Seq<A>, test: spec_fn(A) -> bool, x: A)
    ensures
        list.filter(test).contains(x) == (list.contains(x) && test(x)),
    decreases list.len(),
{
    reveal(Seq::filter);
    if list.len() > 0 {
        let front = list.drop_last();
        lemma_filtered(front, test, x);
        let before = front.filter(test);
        let all = list.filter(test);
        if all.contains(x) {
            let n = choose|n: int| 0 <= n < all.len() && all[n] == x;
            if n < before.len() {
                assert(before[n] == x);
                let m = choose|m: int| 0 <= m < front.len() && front[m] == x;
                assert(list[m] == x);
            } else {
                assert(list[list.len() - 1] == x);
            }
        }
        if list.contains(x) && test(x) {
            let m = choose|m: int| 0 <= m < list.len() && list[m] == x;
            if m < front.len() {
                assert(front[m] == x);
                let n = choose|n: int| 0 <= n < before.len() && before[n] == x;
                assert(all[n] == x);
            } else {
                assert(all[before.len() as int] == x);
            }
        }
    }
}

/// A view without a filter and a sort shows the workflows that it holds in the order of the
/// session.
pub proof fn law_plain_views_keep_order(
    view: ListModel,
    workflows: Seq<Workflow>,
    numerals: NumeralsModel,
)
    requires
        view.filter_expression is None,
        view.sort_spec is None,
    ensures
        view.visible(workflows, numerals) == workflows.filter(
            |w: Workflow| view.workflow_ids.contains(w.id),
        ),
{
    query::law_empty_filter_selects_all(workflows, numerals);
}

/// A filter that can be read becomes that of the active view, and the first row is selected; one
/// that cannot be read changes nothing but what is said. Without a text the filter is cleared.
pub proof fn law_filter_is_set(app: AppModel, argument: Seq<char>)
    requires
        app.is_sound(),
        argument.len() > 0,
    ensures
        match query::filter_of(argument) {
            Ok(filter) => {
                let after = app.filtered(Some(argument));
                &&& after.active_view().filter_expression == Some(filter)
                &&& after.active_view().filter == Some(argument)
                &&& after.active_view().table_state.selected == (if after.visible().len() > 0 {
                    Some(0usize)
                } else {
                    None
                })
            },
            Err(error) => app.filtered(Some(argument)) == (AppModel {
                message: Some("E474: "@ + error),
                ..app
            }),
        },
        app.filtered(None).active_view().filter_expression is None,
        app.filtered(None).active_view().filter is None,
{
    reveal(AppModel::filtered);
    assert(app.tabs[app.active_tab as int].is_sound());
}

/// A sort that can be read becomes that of the active view, and the first row is selected; one that
/// cannot be read changes nothing but what is said. Without a text the sort is cleared.
pub proof fn law_sort_is_set(app: AppModel, argument: Seq<char>)
    requires
        app.is_sound(),
        argument.len() > 0,
    ensures
        match query::sort_of(argument) {
            Ok(sort) => {
                let after = app.sorted(Some(argument));
                &&& after.active_view().sort_spec == Some(sort)
                &&& after.active_view().sort == Some(argument)
                &&& after.active_view().table_state.selected == (if after.visible().len() > 0 {
                    Some(0usize)
                } else {
                    None
                })
            },
            Err(error) => app.sorted(Some(argument)) == (AppModel {
                message: Some("E474: "@ + error),
                ..app
            }),
        },
        app.sorted(None).active_view().sort_spec is None,
        app.sorted(None).active_view().sort is None,
{
    reveal(AppModel::sorted);
    assert(app.tabs[app.active_tab as int].is_sound());
}

/// The last result of a workflow counts: one of the newest triage, or else one of an earlier.
pub proof fn law_latest_result_counts(
    known: Seq<TriageModel>,
    results: Seq<TriageModel>,
    k: int,
    id: u64,
)
    ensures
        0 <= k < results.len() && results[k].workflow_id == id && (forall|m: int|
            k < m < results.len() ==> (#[trigger] results[m]).workflow_id != id)
            ==> actions::result_of(actions::with_results(known, results), id) == Some(results[k]),
        (forall|m: int| 0 <= m < results.len() ==> (#[trigger] results[m]).workflow_id != id)
            ==> actions::result_of(actions::with_results(known, results), id) == actions::result_of(
            known,
            id,
        ),
    decreases results.len(),
{
    if results.len() > 0 {
        let front = results.drop_last();
        let last = results.last();
        law_latest_result_counts(known, front, k, id);
        let before = actions::with_results(known, front);
        let test = |other: TriageModel| other.workflow_id != last.workflow_id;
        assert(actions::with_results(known, results) == before.filter(test).push(last));
        assert(before.filter(test).push(last).drop_last() =~= before.filter(test));
        if last.workflow_id == id {
            assert(results[results.len() - 1].workflow_id == id);
        } else {
            lemma_result_stays(before, last.workflow_id, id);
            if 0 <= k < front.len() && (forall|m: int|
                k < m < results.len() ==> (#[trigger] results[m]).workflow_id != id) {
                assert forall|m: int| k < m < front.len() implies (#[trigger] front[m]).workflow_id
                    != id by {
                    assert(front[m] == results[m]);
                }
            }
            if forall|m: int| 0 <= m < results.len() ==> (#[trigger] results[m]).workflow_id != id {
                assert forall|m: int| 0 <= m < front.len() implies (#[trigger] front[m]).workflow_id
                    != id by {
                    assert(front[m] == results[m]);
                }
            }
        }
    }
}

proof fn lemma_result_stays(list: Seq<TriageModel>, gone: u64, id: u64)
    requires
        gone != id,
    ensures
        actions::result_of(
            list.filter(|other: TriageModel| other.workflow_id != gone),
            id,
        ) == actions::result_of(list, id),
    decreases list.len(),
{
    reveal(Seq::filter);
    if list.len() > 0 {
        let front = list.drop_last();
        lemma_result_stays(front, gone, id);
        let before = front.filter(|other: TriageModel| other.workflow_id != gone);
        assert(before.push(list.last()).drop_last() =~= before);
    }
}

/// A result is kept once of each workflow: an earlier one of the same workflow makes room.
pub proof fn law_newer_result_replaces(
    known: Seq<TriageModel>,
    result: TriageModel,
    other: TriageModel,
)
    ensures
        actions::with_result(known, result).contains(result),
        other.workflow_id == result.workflow_id && other != result
            ==> !actions::with_result(known, result).contains(other),
        other.workflow_id != result.workflow_id ==> actions::with_result(known, result).contains(
            other,
        ) == known.contains(other),
{
    let test = |o: TriageModel| o.workflow_id != result.workflow_id;
    let front = known.filter(test);
    let all = actions::with_result(known, result);
    lemma_filtered(known, test, other);
    assert(all[front.len() as int] == result);
    if all.contains(other) {
        let n = choose|n: int| 0 <= n < all.len() && all[n] == other;
        if n < front.len() {
            assert(front[n] == other);
        }
    }
    if front.contains(other) {
        let n = choose|n: int| 0 <= n < front.len() && front[n] == other;
        assert(all[n] == other);
    }
}

/// A triage takes up the failing workflows of the active view, all of them in their order; where
/// there are none, or one is under way, nothing is started.
pub proof fn law_triage_takes_up_failing(app: AppModel)
    ensures
        match app.triage_started().1 {
            EffectModel::Triage { repository, workflows } => {
                &&& !app.triage_running
                &&& repository == app.repository
                &&& workflows == app.visible().filter(
                    |w: Workflow| w.run_status == RunStatus::Failure,
                )
                &&& workflows.len() > 0
                &&& app.triage_started().0 == (AppModel {
                    triage_running: true,
                    triage_target: Some(TriageTarget::NewTab { insert_after: app.active_tab }),
                    message: None,
                    ..app
                })
            },
            _ => app.triage_started().1 is Nothing && (app.triage_running || app.visible().filter(
                |w: Workflow| w.run_status == RunStatus::Failure,
            ).len() == 0),
        },
{
    reveal(AppModel::triage_started);
    assert(app.failing() == app.visible().filter(
        |w: Workflow| w.run_status == RunStatus::Failure,
    ));
}

/// A refresh of a triage tab triages all of its workflows again; that of another tab loads
/// workflows. Neither is started while one is under way.
pub proof fn law_refresh_is_of_active_tab(app: AppModel)
    ensures
        app.active().is_triage && !app.triage_running && app.visible().len() > 0
            ==> app.refreshed().1 == (EffectModel::Triage {
            repository: app.repository,
            workflows: app.visible(),
        }),
        app.active().is_triage && (app.triage_running || app.visible().len() == 0)
            ==> app.refreshed().1 is Nothing,
        !app.active().is_triage ==> (app.refreshed().1 is Load) == (app.pending_load is None
            && !app.triage_running),
        !app.active().is_triage ==> !(app.refreshed().1 is Triage),
{
    reveal(AppModel::refreshed);
}

/// A file is kept where the environment says; otherwise on Windows in the local application data,
/// and elsewhere in the XDG directory before the home directory.
pub proof fn law_files_have_places(environment: Environment)
    ensures
        paths::base_of(environment) == Some(Base::Given) <==> environment.given,
        paths::base_of(environment) == Some(Base::LocalAppData) <==> !environment.given
            && environment.windows && environment.local_app_data,
        paths::base_of(environment) == Some(Base::Xdg) <==> !environment.given
            && !environment.windows && environment.xdg,
        paths::base_of(environment) == Some(Base::Home) <==> !environment.given
            && !environment.windows && !environment.xdg && environment.home,
{
}

/// The files have their names below their places.
pub proof fn law_files_have_names(base: Base)
    ensures
        base == Base::Given ==> paths::history_steps(base).len() == 0 && paths::cache_steps(
            base,
        ).len() == 0,
        base != Base::Given ==> paths::history_steps(base).last() == "history"@
            && paths::cache_steps(base).last() == "run-cache.json"@,
        base == Base::Home ==> paths::history_steps(base) == seq![
            ".local"@,
            "state"@,
            "gh-actui"@,
            "history"@,
        ] && paths::cache_steps(base) == seq![".cache"@, "gh-actui"@, "run-cache.json"@],
        base == Base::Xdg || base == Base::LocalAppData ==> paths::history_steps(base) == seq![
            "gh-actui"@,
            "history"@,
        ] && paths::cache_steps(base) == seq!["gh-actui"@, "run-cache.json"@],
{
}

/// The workflows that are wanted come in the order in which they are wanted, without those that
/// are not there.
pub proof fn law_wanted_workflows_come_in_order(ids: Seq<u64>, workflows: Seq<Workflow>)
    requires
        ids.no_duplicates(),
    ensures
        state::ids_of(state::resolved(ids, workflows)) == ids.filter(
            |id: u64| state::ids_of(workflows).contains(id),
        ),
    decreases ids.len(),
{
    reveal(Seq::filter);
    let all = state::resolved(ids, workflows);
    if ids.len() > 0 {
        let front = ids.drop_last();
        assert forall|i: int, j: int| 0 <= i < front.len() && 0 <= j < front.len() && i != j implies
            front[i] != front[j] by {
            assert(ids[i] != ids[j]);
        }
        law_wanted_workflows_come_in_order(front, workflows);
        lemma_listed_id(workflows, ids.last());
        if front.contains(ids.last()) {
            let i = choose|i: int| 0 <= i < front.len() && front[i] == ids.last();
            assert(ids[i] != ids[ids.len() - 1]);
        }
        let before = state::resolved(front, workflows);
        if let Some(workflow) = state::last_with_id(workflows, ids.last()) {
            assert(all == before.push(workflow));
            assert(state::ids_of(all) =~= state::ids_of(before).push(workflow.id));
        }
    } else {
        assert(state::ids_of(all) =~= ids.filter(
            |id: u64| state::ids_of(workflows).contains(id),
        ));
    }
}

proof fn lemma_listed_id(workflows: Seq<Workflow>, id: u64)
    ensures
        state::ids_of(workflows).contains(id) == (state::last_with_id(workflows, id) is Some),
        state::last_with_id(workflows, id) matches Some(workflow) ==> workflow.id == id,
    decreases workflows.len(),
{
    let ids = state::ids_of(workflows);
    if workflows.len() > 0 {
        let front = workflows.drop_last();
        let before = state::ids_of(front);
        lemma_listed_id(front, id);
        assert(ids =~= before.push(workflows.last().id));
        if before.contains(id) {
            let n = choose|n: int| 0 <= n < before.len() && before[n] == id;
            assert(ids[n] == id);
        }
        if workflows.last().id == id {
            assert(ids[before.len() as int] == id);
        }
        if ids.contains(id) && workflows.last().id != id {
            let n = choose|n: int| 0 <= n < ids.len() && ids[n] == id;
            assert(before[n] == id);
        }
    }
}

/// What is cached of a workflow is what stands under the repository and the number of the workflow,
/// and nothing where nothing stands there.
pub proof fn law_cached_runs_are_of_workflow(
    cache: Map<Seq<char>, CachedModel>,
    repository: crate::repository::RepositoryModel,
    id: u64,
)
    ensures
        ({
            let key = repository.owner + "/"@ + repository.name + "#"@ + text::decimal(id as nat);
            let cached = crate::fetch::cached_runs(cache, repository, id);
            &&& cache.contains_key(key) ==> cached == cache[key]
            &&& !cache.contains_key(key) ==> cached.runs.len() == 0 && cached.etag is None
        }),
        crate::fetch::runs_path_of(repository, id) == "repos/"@ + repository.owner + "/"@
            + repository.name + ("/actions/workflows/"@ + text::decimal(id as nat)
            + "/runs?per_page=100"@),
{
}

/// What the runs of a workflow come to replaces its status and its metrics, and nothing else of
/// it.
pub proof fn law_summary_replaces_status(workflow: Workflow, summary: runs::RunSummary)
    ensures
        ({
            let after = crate::fetch::with_summary(workflow, summary);
            &&& after.run_status == summary.run_status
            &&& after.is_in_progress == summary.is_in_progress
            &&& after.run_metrics == summary.run_metrics
            &&& after.id == workflow.id
            &&& after.name == workflow.name
            &&& after.path == workflow.path
            &&& after.state == workflow.state
        }),
{
}

/// The commands of a history file are its lines without the blanks around them, in their order;
/// blank lines are none.
pub proof fn law_history_lines_are_commands(lines: Seq<Seq<char>>, line: Seq<char>)
    ensures
        command::commands_in(Seq::empty()) == Seq::<Seq<char>>::empty(),
        text::trimmed(line).len() > 0 ==> command::commands_in(lines.push(line))
            == command::commands_in(lines).push(text::trimmed(line)),
        text::trimmed(line).len() == 0 ==> command::commands_in(lines.push(line))
            == command::commands_in(lines),
{
    assert(lines.push(line).drop_last() =~= lines);
}

/// Of a history file the latest thousand commands count.
pub proof fn law_history_file_gives_latest(contents: Seq<char>)
    ensures
        ({
            let all = command::commands_in(text::lines_of(contents));
            &&& all.len() <= 1000 ==> command::history_of(contents) == all
            &&& all.len() > 1000 ==> command::history_of(contents) == all.skip(all.len() - 1000)
        }),
{
}

} // verus!
