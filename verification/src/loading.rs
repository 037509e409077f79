//! What becomes of a session while workflows are loaded.
use vstd::prelude::*;
use vstd::string::*;

use crate::github::{self, Workflow};
use crate::query::{self, NumeralsModel};
use crate::repository::RepositoryModel;
use crate::state::{self, StateErrorModel, StateModel};
use crate::text;
use crate::tui::{self, AppModel, EffectModel, LoadEvent, LoadKind};
use crate::view::{self, ListModel};

verus! {

proof fn lemma_first_with_id(workflows: Seq<Workflow>, id: u64)
    ensures
        match tui::first_with_id(workflows, id) {
            Some(i) => 0 <= i < workflows.len() && workflows[i].id == id && forall|j: int|
                0 <= j < i ==> (#[trigger] workflows[j]).id != id,
            None => forall|j: int| 0 <= j < workflows.len() ==> (#[trigger] workflows[j]).id != id,
        },
    decreases workflows.len(),
{
    if workflows.len() > 0 {
        let front = workflows.drop_last();
        lemma_first_with_id(front, id);
        match tui::first_with_id(front, id) {
            Some(i) => {
                assert(front[i] == workflows[i]);
                assert forall|j: int| 0 <= j < i implies (#[trigger] workflows[j]).id != id by {
                    assert(front[j] == workflows[j]);
                }
            },
            None => {
                assert forall|j: int| 0 <= j < workflows.len() - 1 implies (
                #[trigger] workflows[j]).id != id by {
                    assert(front[j] == workflows[j]);
                }
            },
        }
    }
}

proof fn lemma_all_held(workflows: Seq<Workflow>, ids: Seq<u64>)
    requires
        forall|i: int| 0 <= i < workflows.len() ==> ids.contains((#[trigger] workflows[i]).id),
    ensures
        workflows.filter(|w: Workflow| ids.contains(w.id)) == workflows,
    decreases workflows.len(),
{
    reveal(Seq::filter);
    if workflows.len() > 0 {
        let front = workflows.drop_last();
        assert forall|i: int| 0 <= i < front.len() implies ids.contains((#[trigger] front[i]).id) by {
            assert(front[i] == workflows[i]);
        }
        lemma_all_held(front, ids);
        assert(ids.contains(workflows[workflows.len() - 1].id));
        assert(front.push(workflows.last()) =~= workflows);
    } else {
        assert(workflows.filter(|w: Workflow| ids.contains(w.id)) =~= workflows);
    }
}

/// The first load of a repository gives one unnamed tab that shows all workflows in their order,
/// the first of them selected; the status of none of them is known yet.
pub proof fn law_first_load_shows_all(app: AppModel, workflows: Seq<Workflow>)
    requires
        app.pending_load matches Some(load) && load.kind == LoadKind::Initial && load.workflow_ids
            is None && load.tabs is None,
        0 < workflows.len() <= usize::MAX,
    ensures
        ({
            let after = app.discovered(workflows);
            &&& after.workflows == workflows
            &&& after.tabs.len() == 1
            &&& after.active_tab == 0
            &&& after.active().name is None
            &&& !after.active().is_triage
            &&& after.visible() == workflows
            &&& after.active_view().table_state.selected == Some(0usize)
            &&& after.loading_status_ids == workflows.map_values(|w: Workflow| w.id)
            &&& after.loaded_status_count == 0
            &&& after.repository == app.pending_load->0.repository
        }),
{
    let after = app.discovered(workflows);
    let ids = state::ids_of(workflows);
    let plain = ListModel::start(ids, None, None);
    query::law_empty_filter_selects_all(workflows, app.numerals);
    assert forall|i: int| 0 <= i < workflows.len() implies ids.contains(
        (#[trigger] workflows[i]).id,
    ) by {
        assert(ids[i] == workflows[i].id);
    }
    lemma_all_held(workflows, ids);
    assert(plain.visible(workflows, app.numerals) == workflows);
    assert(after.active_view().visible(workflows, app.numerals) == workflows);
    lemma_all_unknown(app, ids);
    assert(ids =~= workflows.map_values(|w: Workflow| w.id));
}

proof fn lemma_all_unknown(app: AppModel, ids: Seq<u64>)
    requires
        app.pending_load->0.kind != LoadKind::Refresh,
    ensures
        ids.filter(
            |id: u64|
                app.pending_load->0.kind != LoadKind::Refresh || tui::first_with_id(
                    app.workflows,
                    id,
                ) is None,
        ) == ids,
    decreases ids.len(),
{
    reveal(Seq::filter);
    if ids.len() > 0 {
        lemma_all_unknown(app, ids.drop_last());
        assert(ids.drop_last().push(ids.last()) =~= ids);
    } else {
        assert(ids.filter(
            |id: u64|
                app.pending_load->0.kind != LoadKind::Refresh || tui::first_with_id(
                    app.workflows,
                    id,
                ) is None,
        ) =~= ids);
    }
}

/// The status of a workflow that was loaded takes the place of what was known of it, and of no
/// other; the workflow is no longer loading, and one more is done.
pub proof fn law_status_takes_its_place(app: AppModel, workflow: Workflow, place: int)
    requires
        0 <= place < app.workflows.len(),
        app.workflows[place].id == workflow.id,
        forall|j: int| 0 <= j < place ==> (#[trigger] app.workflows[j]).id != workflow.id,
        app.loaded_status_count < u64::MAX,
    ensures
        ({
            let after = app.status_loaded(workflow);
            &&& after.workflows == app.workflows.update(place, workflow)
            &&& after.loaded_status_count == app.loaded_status_count + 1
            &&& forall|id: u64|
                #[trigger] after.loading_status_ids.contains(id) == (id != workflow.id
                    && app.loading_status_ids.contains(id))
            &&& after.load_failures == app.load_failures
        }),
{
    lemma_first_with_id(app.workflows, workflow.id);
    lemma_excluding(app.loading_status_ids, workflow.id);
    match tui::first_with_id(app.workflows, workflow.id) {
        Some(i) => {
            if i < place {
                assert(app.workflows[i].id != workflow.id);
            }
            if place < i {
                assert(app.workflows[place].id != workflow.id);
            }
        },
        None => {
            assert(app.workflows[place].id != workflow.id);
        },
    }
}

proof fn lemma_excluded(ids: Seq<u64>, id: u64, x: u64)
    ensures
        tui::excluding(ids, id).contains(x) == (x != id && ids.contains(x)),
    decreases ids.len(),
{
    reveal(Seq::filter);
    let all = tui::excluding(ids, id);
    if ids.len() > 0 {
        let front = ids.drop_last();
        let before = tui::excluding(front, id);
        lemma_excluded(front, id, x);
        if all.contains(x) {
            let n = choose|n: int| 0 <= n < all.len() && all[n] == x;
            if n < before.len() {
                assert(before[n] == x);
                let m = choose|m: int| 0 <= m < front.len() && front[m] == x;
                assert(ids[m] == x);
            } else {
                assert(ids[ids.len() - 1] == x);
            }
        }
        if x != id && ids.contains(x) {
            let m = choose|m: int| 0 <= m < ids.len() && ids[m] == x;
            if m < front.len() {
                assert(front[m] == x);
                let n = choose|n: int| 0 <= n < before.len() && before[n] == x;
                assert(all[n] == x);
            } else {
                assert(all[before.len() as int] == x);
            }
        }
    }
}

proof fn lemma_excluding(ids: Seq<u64>, id: u64)
    ensures
        forall|other: u64|
            #[trigger] tui::excluding(ids, id).contains(other) == (other != id && ids.contains(
                other,
            )),
{
    assert forall|other: u64|
        #[trigger] tui::excluding(ids, id).contains(other) == (other != id && ids.contains(other)) by {
        lemma_excluded(ids, id, other);
    }
}

/// A status of a workflow that is not there changes none.
pub proof fn law_unknown_status_changes_none(app: AppModel, workflow: Workflow)
    requires
        forall|j: int| 0 <= j < app.workflows.len() ==> (#[trigger] app.workflows[j]).id
            != workflow.id,
    ensures
        app.status_loaded(workflow).workflows == app.workflows,
        app.status_loaded(workflow).loaded_status_count == app.loaded_status_count,
{
    lemma_first_with_id(app.workflows, workflow.id);
}

/// A status that could not be loaded is told of with the name of its workflow and counts as a
/// failure; what is known of the workflows stays.
pub proof fn law_failed_status_is_told(
    app: AppModel,
    id: u64,
    name: Seq<char>,
    error: Seq<char>,
    place: int,
)
    requires
        0 <= place < app.workflows.len(),
        app.workflows[place].id == id,
        app.loaded_status_count < u64::MAX,
    ensures
        ({
            let after = app.status_failed(id, name, error);
            &&& after.workflows == app.workflows
            &&& after.tabs == app.tabs
            &&& after.load_failures.len() == app.load_failures.len() + 1
            &&& after.loaded_status_count == app.loaded_status_count + 1
            &&& forall|other: u64|
                #[trigger] after.loading_status_ids.contains(other) == (other != id
                    && app.loading_status_ids.contains(other))
            &&& after.message == Some(
                "E484: Could not load status for "@ + (name + ": "@ + error),
            )
        }),
{
    lemma_first_with_id(app.workflows, id);
    lemma_excluding(app.loading_status_ids, id);
    if tui::first_with_id(app.workflows, id) is None {
        assert(app.workflows[place].id != id);
    }
}

/// Where a load has ended, nothing is loading any more. It is said how many workflows were loaded
/// or refreshed and how many could not be, or what went wrong.
pub proof fn law_ended_load_is_told(app: AppModel, error: Seq<char>, now: u64)
    requires
        app.pending_load is Some,
    ensures
        ({
            let done = app.load_event(LoadEvent::Complete, now);
            let words = text::decimal(app.workflows.len()) + (if app.pending_load->0.kind
                == LoadKind::Refresh {
                " workflows refreshed"@
            } else {
                " workflows loaded"@
            });
            &&& done.pending_load is None
            &&& done.loading_status_ids.len() == 0
            &&& done.workflows == app.workflows
            &&& done.tabs == app.tabs
            &&& done.load_failures == app.load_failures
            &&& done.message == Some(
                if app.load_failures.len() == 0 {
                    words
                } else {
                    words + "; "@ + (text::decimal(app.load_failures.len())
                        + " workflow statuses failed"@)
                },
            )
        }),
        ({
            let failed = app.load_ended(Some(error), now);
            &&& failed.pending_load is None
            &&& failed.loading_status_ids.len() == 0
            &&& failed.workflows == app.workflows
            &&& failed.message == Some("E484: "@ + error)
        }),
{
}

/// The runs that were gathered are kept exactly when a load is over, however it ends.
pub proof fn law_cache_is_saved_at_end(event: LoadEvent)
    ensures
        tui::load_effect(event) is SaveCache <==> event is Fatal || event is Complete || event
            is Stopped,
        tui::load_effect(event) is SaveCache || tui::load_effect(event) is Nothing,
{
}

/// Whether a row is the first one that shows a workflow.
pub open spec fn is_row_of(visible: Seq<Workflow>, row: int, id: u64) -> bool {
    &&& 0 <= row < visible.len()
    &&& visible[row].id == id
    &&& forall|j: int| 0 <= j < row ==> (#[trigger] visible[j]).id != id
}

proof fn lemma_row_of(visible: Seq<Workflow>, id: u64)
    ensures
        match view::row_of(visible, id) {
            Some(row) => is_row_of(visible, row, id),
            None => forall|j: int| 0 <= j < visible.len() ==> (#[trigger] visible[j]).id != id,
        },
    decreases visible.len(),
{
    if visible.len() > 0 {
        let front = visible.drop_last();
        lemma_row_of(front, id);
        match view::row_of(front, id) {
            Some(row) => {
                assert(front[row] == visible[row]);
                assert forall|j: int| 0 <= j < row implies (#[trigger] visible[j]).id != id by {
                    assert(front[j] == visible[j]);
                }
            },
            None => {
                assert forall|j: int| 0 <= j < front.len() implies (#[trigger] visible[j]).id
                    != id by {
                    assert(front[j] == visible[j]);
                }
            },
        }
    }
}

/// The row of a workflow is the first one that shows it.
pub proof fn law_row_is_first(visible: Seq<Workflow>, row: int, id: u64)
    ensures
        is_row_of(visible, row, id) ==> view::row_of(visible, id) == Some(row),
        (forall|j: int| 0 <= j < visible.len() ==> (#[trigger] visible[j]).id != id)
            ==> view::row_of(visible, id) is None,
{
    lemma_row_of(visible, id);
    match view::row_of(visible, id) {
        Some(other) => {
            assert(visible[other].id == id);
            if is_row_of(visible, row, id) {
                if other < row {
                    assert(visible[other].id != id);
                }
                if row < other {
                    assert(visible[row].id != id);
                }
            }
        },
        None => {
            if is_row_of(visible, row, id) {
                assert(visible[row].id != id);
            }
        },
    }
}

/// A selection is repaired to the row of the workflow that is wanted, where it is shown; else it
/// stays where it is as far as there is such a row, and is the first row otherwise.
pub proof fn law_selection_is_repaired(
    list: ListModel,
    workflows: Seq<Workflow>,
    numerals: NumeralsModel,
    wanted: Option<u64>,
    row: int,
)
    requires
        list.visible(workflows, numerals).len() <= usize::MAX,
    ensures
        ({
            let visible = list.visible(workflows, numerals);
            let repaired = list.repaired(workflows, numerals, wanted);
            let shown = wanted is Some && exists|j: int|
                0 <= j < visible.len() && (#[trigger] visible[j]).id == wanted->0;
            &&& wanted is Some && is_row_of(visible, row, wanted->0) ==> repaired == Some(
                row as usize,
            )
            &&& !shown ==> repaired == (match list.table_state.selected {
                Some(i) => if i < visible.len() {
                    Some(i)
                } else if visible.len() > 0 {
                    Some(0usize)
                } else {
                    None
                },
                None => if visible.len() > 0 {
                    Some(0usize)
                } else {
                    None
                },
            })
        }),
{
    let visible = list.visible(workflows, numerals);
    if let Some(id) = wanted {
        lemma_row_of(visible, id);
        if is_row_of(visible, row, id) {
            match view::row_of(visible, id) {
                Some(other) => {
                    if other < row {
                        assert(visible[other].id != id);
                    }
                    if row < other {
                        assert(visible[row].id != id);
                    }
                },
                None => {
                    assert(visible[row].id != id);
                },
            }
        }
        if let Some(other) = view::row_of(visible, id) {
            assert(visible[other].id == id);
        }
    }
}

/// A state file that was read has its repository and its workflows loaded, and its tabs opened; one
/// that could not be read is told of, and nothing is loaded.
pub proof fn law_read_state_is_loaded(
    app: AppModel,
    path: Seq<char>,
    session: StateModel,
    error: StateErrorModel,
)
    ensures
        ({
            let (after, effect) = app.state_read(path, Ok(session));
            &&& effect == (EffectModel::Load {
                repository: session.repository,
                wanted: Some(session.workflow_ids),
            })
            &&& (after.pending_load matches Some(load) && load.kind == LoadKind::Edit
                && load.repository == session.repository && load.workflow_ids == Some(
                session.workflow_ids,
            ) && load.tabs == Some(session.tabs) && load.active_tab == session.active_tab
                && load.state_path == Some(path))
            &&& after.workflows == app.workflows && after.tabs == app.tabs
        }),
        ({
            let (after, effect) = app.state_read(path, Err(error));
            &&& effect is Nothing
            &&& after.pending_load == app.pending_load
            &&& after.message == Some("E484: "@ + error.words())
        }),
{
}

/// A new session refreshes every fifteen seconds, in Normal mode, with nothing under way.
pub proof fn law_session_starts_idle(
    repository: RepositoryModel,
    workflows: Seq<Workflow>,
    path: Option<Seq<char>>,
    now: u64,
)
    ensures
        ({
            let app = AppModel::start(repository, workflows, path, None, now);
            &&& app.refresh_interval == 15
            &&& app.next_refresh == now + 15_000
            &&& app.mode == tui::Mode::Normal
            &&& app.pending_load is None
            &&& !app.triage_running
            &&& !app.should_quit
            &&& app.workflows == workflows
            &&& app.repository == repository
            &&& app.state_path == path
            &&& app.tabs.len() == 1
            &&& app.active_tab == 0
        }),
{
}

/// Only workflows that are active are listed, all of them and in the order of the pages.
pub proof fn law_active_workflows_are_listed(
    pages: Seq<Vec<Workflow>>,
    page: Vec<Workflow>,
)
    ensures
        github::active(Seq::empty()) == Seq::<Workflow>::empty(),
        github::active(pages.push(page)) == github::active(pages) + page@.filter(
            |w: Workflow| w.state@ == "active"@,
        ),
{
    assert(pages.push(page).drop_last() =~= pages);
}

proof fn lemma_targets(workflows: Seq<Workflow>, wanted: Option<Seq<u64>>, x: Workflow)
    ensures
        tui::targets_of(workflows, wanted).contains(x) == (workflows.contains(x) && (wanted is None
            || wanted->0.contains(x.id))),
    decreases workflows.len(),
{
    reveal(Seq::filter);
    let all = tui::targets_of(workflows, wanted);
    if workflows.len() > 0 {
        let front = workflows.drop_last();
        let before = tui::targets_of(front, wanted);
        lemma_targets(front, wanted, x);
        if all.contains(x) {
            let n = choose|n: int| 0 <= n < all.len() && all[n] == x;
            if n < before.len() {
                assert(before[n] == x);
                let m = choose|m: int| 0 <= m < front.len() && front[m] == x;
                assert(workflows[m] == x);
            } else {
                assert(workflows[workflows.len() - 1] == x);
            }
        }
        if workflows.contains(x) && (wanted is None || wanted->0.contains(x.id)) {
            let m = choose|m: int| 0 <= m < workflows.len() && workflows[m] == x;
            if m < front.len() {
                assert(front[m] == x);
                let n = choose|n: int| 0 <= n < before.len() && before[n] == x;
                assert(all[n] == x);
            } else {
                assert(all[before.len() as int] == x);
            }
        }
    }
}

/// The status is loaded of exactly the workflows that are wanted, and of all where none are named.
pub proof fn law_targets_are_all_wanted(
    workflows: Seq<Workflow>,
    wanted: Seq<u64>,
    workflow: Workflow,
)
    ensures
        tui::targets_of(workflows, Some(wanted)).contains(workflow) <==> workflows.contains(workflow)
            && wanted.contains(workflow.id),
        tui::targets_of(workflows, None).contains(workflow) <==> workflows.contains(workflow),
{
    lemma_targets(workflows, Some(wanted), workflow);
    lemma_targets(workflows, None, workflow);
}

/// Of the workflows of a file that is opened nothing is known yet: the status of all of them is
/// loading.
pub proof fn law_opened_files_load_all(app: AppModel, workflows: Seq<Workflow>)
    requires
        app.pending_load matches Some(load) && load.kind == LoadKind::Edit,
    ensures
        ({
            let after = app.discovered(workflows);
            &&& after.loading_status_ids == after.workflows.map_values(|w: Workflow| w.id)
            &&& after.loaded_status_count == 0
            &&& after.state_path == app.pending_load->0.state_path
        }),
{
    let after = app.discovered(workflows);
    lemma_all_unknown(app, state::ids_of(after.workflows));
    assert(state::ids_of(after.workflows) =~= after.workflows.map_values(|w: Workflow| w.id));
}

} // verus!
