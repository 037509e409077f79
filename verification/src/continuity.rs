//! What saving, loading and refreshing a session keeps.
use vstd::prelude::*;
use vstd::string::*;

use crate::actions;
use crate::github::{TriageModel, Workflow};
use crate::laws;
use crate::query::NumeralsModel;
use crate::state::{self, SavedTabModel, StateModel};
use crate::tui::{self, AppModel, EffectModel, LoadEvent, LoadKind, TriageTarget};
use crate::view::{self, ListModel, TabModel};

verus! {

/// The tabs that are saved are all but those of a triage, in their order.
pub proof fn law_triage_tabs_are_not_saved(app: AppModel)
    ensures
        app.normal_tabs(app.tabs.len() as int) == app.tabs.filter(
            |tab: TabModel| !tab.is_triage,
        ).map_values(|tab: TabModel| tab.saved(app.workflows, app.numerals)),
{
    lemma_normal_tabs(app, app.tabs.len() as int);
    assert(app.tabs.take(app.tabs.len() as int) =~= app.tabs);
}

proof fn lemma_normal_tabs(app: AppModel, upto: int)
    requires
        0 <= upto <= app.tabs.len(),
    ensures
        app.normal_tabs(upto) == app.tabs.take(upto).filter(
            |tab: TabModel| !tab.is_triage,
        ).map_values(|tab: TabModel| tab.saved(app.workflows, app.numerals)),
    decreases upto,
{
    reveal(Seq::filter);
    let normal = |tab: TabModel| !tab.is_triage;
    let saved = |tab: TabModel| tab.saved(app.workflows, app.numerals);
    if upto == 0 {
        assert(app.tabs.take(0).filter(normal).map_values(saved) =~= Seq::empty());
    } else {
        lemma_normal_tabs(app, upto - 1);
        let tab = app.tabs[upto - 1];
        let rest = app.tabs.take(upto - 1).filter(normal);
        assert(app.tabs.take(upto).drop_last() =~= app.tabs.take(upto - 1));
        if normal(tab) {
            assert(rest.push(tab).map_values(saved) =~= rest.map_values(saved).push(saved(tab)));
        }
    }
}

proof fn lemma_normal_prefix(app: AppModel, a: int, b: int)
    requires
        0 <= a <= b <= app.tabs.len(),
    ensures
        app.normal_tabs(a).len() <= app.normal_tabs(b).len(),
        app.normal_tabs(b).len() - app.normal_tabs(a).len() <= b - a,
        forall|k: int|
            0 <= k < app.normal_tabs(a).len() ==> #[trigger] app.normal_tabs(b)[k]
                == app.normal_tabs(a)[k],
    decreases b - a,
{
    if a < b {
        lemma_normal_prefix(app, a, b - 1);
    }
}

proof fn lemma_normal_sound(app: AppModel, upto: int)
    requires
        app.is_sound(),
        0 <= upto <= app.tabs.len(),
    ensures
        forall|k: int|
            0 <= k < app.normal_tabs(upto).len() ==> (#[trigger] app.normal_tabs(
                upto,
            )[k]).is_sound(),
    decreases upto,
{
    if upto > 0 {
        lemma_normal_sound(app, upto - 1);
        let tab = app.tabs[upto - 1];
        let before = app.normal_tabs(upto - 1);
        assert(tab.is_sound());
        assert(tab.saved(app.workflows, app.numerals).is_sound());
        assert forall|k: int| 0 <= k < app.normal_tabs(upto).len() implies (
        #[trigger] app.normal_tabs(upto)[k]).is_sound() by {
            if k < before.len() {
                assert(app.normal_tabs(upto)[k] == before[k]);
            }
        }
    }
}

/// What is saved of a session can be loaded again: there is a tab, one of the tabs is active, and
/// all can be shown.
pub proof fn law_saved_session_can_be_loaded(app: AppModel)
    requires
        app.is_sound(),
        app.tabs.len() <= usize::MAX,
    ensures
        state::tabs_sound(app.saved().tabs),
        app.saved().active_tab < app.saved().tabs.len(),
{
    reveal(AppModel::saved);
    lemma_normal_sound(app, app.tabs.len() as int);
    lemma_normal_prefix(app, app.active_tab + 1, app.tabs.len() as int);
    lemma_normal_prefix(app, 0, app.active_tab + 1);
}

/// Where all tabs are those of a triage, one unnamed tab of all workflows is saved.
pub proof fn law_only_triage_saves_all_workflows(app: AppModel)
    requires
        forall|i: int| 0 <= i < app.tabs.len() ==> (#[trigger] app.tabs[i]).is_triage,
    ensures
        app.saved().tabs == seq![
            SavedTabModel::plain(
                state::ids_of(app.workflows),
                if app.workflows.len() > 0 {
                    Some(app.workflows[0].id)
                } else {
                    None
                },
            ),
        ],
        app.saved().active_tab == 0,
{
    reveal(AppModel::saved);
    lemma_no_normal_tabs(app, app.tabs.len() as int);
}

proof fn lemma_no_normal_tabs(app: AppModel, upto: int)
    requires
        0 <= upto <= app.tabs.len(),
        forall|i: int| 0 <= i < upto ==> (#[trigger] app.tabs[i]).is_triage,
    ensures
        app.normal_tabs(upto).len() == 0,
    decreases upto,
{
    if upto > 0 {
        lemma_no_normal_tabs(app, upto - 1);
        assert(app.tabs[upto - 1].is_triage);
    }
}

proof fn lemma_last_normal(app: AppModel, nearest: int, upto: int)
    requires
        0 <= nearest < upto <= app.tabs.len(),
        !app.tabs[nearest].is_triage,
        forall|i: int| nearest < i < upto ==> (#[trigger] app.tabs[i]).is_triage,
    ensures
        app.normal_tabs(upto).len() == app.normal_tabs(nearest).len() + 1,
        app.normal_tabs(upto).last() == app.tabs[nearest].saved(app.workflows, app.numerals),
    decreases upto,
{
    if upto - 1 > nearest {
        assert(app.tabs[upto - 1].is_triage);
        lemma_last_normal(app, nearest, upto - 1);
    }
}

/// The tab that is saved as the active one is the active tab, or, where that is one of a triage,
/// the nearest tab before it that is none.
pub proof fn law_saved_active_tab_is_nearest(app: AppModel, nearest: int)
    requires
        app.is_sound(),
        app.tabs.len() <= usize::MAX,
        0 <= nearest <= app.active_tab,
        !app.tabs[nearest].is_triage,
        forall|i: int| nearest < i <= app.active_tab ==> (#[trigger] app.tabs[i]).is_triage,
    ensures
        app.saved().tabs[app.saved().active_tab as int] == app.tabs[nearest].saved(
            app.workflows,
            app.numerals,
        ),
{
    reveal(AppModel::saved);
    lemma_last_normal(app, nearest, app.active_tab + 1);
    lemma_normal_prefix(app, app.active_tab + 1, app.tabs.len() as int);
    lemma_normal_prefix(app, 0, app.active_tab + 1);
}

/// Whether two views differ in what is selected alone.
pub open spec fn same_view(a: ListModel, b: ListModel) -> bool {
    a == (ListModel { table_state: a.table_state, ..b })
}

/// Whether two tabs differ in what is selected alone.
pub open spec fn same_tab(a: TabModel, b: TabModel) -> bool {
    &&& a == (TabModel { views: a.views, ..b })
    &&& a.views.len() == b.views.len()
    &&& forall|j: int| 0 <= j < b.views.len() ==> same_view(#[trigger] a.views[j], b.views[j])
}

/// A session that is saved and loaded again has the tabs that it had, but for those of a triage:
/// their names and layouts, their active views, and the workflows, the filter and the sort of
/// each view. A row that was selected is selected again, as far as its workflow is still shown.
pub proof fn law_saved_session_is_restored(
    app: AppModel,
    path: Seq<char>,
    other: AppModel,
    workflows: Seq<Workflow>,
    tab: int,
)
    requires
        app.is_sound(),
        app.tabs.len() <= usize::MAX,
        laws::all_read(app.tabs),
        0 <= tab < app.tabs.len(),
        !app.tabs[tab].is_triage,
    ensures
        ({
            let after = other.loading(AppModel::edit_load(path, app.saved())).discovered(workflows);
            let place = app.normal_tabs(tab).len() as int;
            &&& after.repository == app.repository
            &&& after.state_path == Some(path)
            &&& after.tabs.len() == app.normal_tabs(app.tabs.len() as int).len()
            &&& after.active_tab == app.saved().active_tab
            &&& same_tab(after.tabs[place], app.tabs[tab])
            &&& forall|j: int, id: u64|
                0 <= j < app.tabs[tab].views.len() && #[trigger] app.tabs[tab].views[j].selected_id(
                    app.workflows,
                    app.numerals,
                ) == Some(id) && #[trigger] view::row_of(
                    after.shown_by(app.tabs[tab].views[j]),
                    id,
                ) is Some && after.shown_by(app.tabs[tab].views[j]).len() <= usize::MAX ==> after.tabs[place].views[j].selected_id(
                    after.workflows,
                    after.numerals,
                ) == Some(id)
        }),
{
    reveal(AppModel::saved);
    let count = app.tabs.len() as int;
    let place = app.normal_tabs(tab).len() as int;
    let source = app.tabs[tab];
    let saved = source.saved(app.workflows, app.numerals);
    lemma_normal_prefix(app, tab + 1, count);
    assert(app.normal_tabs(tab + 1)[place] == saved);
    assert(app.normal_tabs(count)[place] == saved);
    law_saved_session_can_be_loaded(app);
    let start = other.loading(AppModel::edit_load(path, app.saved()));
    let after = start.discovered(workflows);
    let loaded = start.loaded_workflows(workflows);
    let opened = start.opened_tabs(loaded);
    let restored = tui::restored_with(saved, loaded, start.numerals);
    assert(opened[place] == restored);
    assert(source.is_sound());
    assert(after.tabs[place].views.len() == source.views.len());
    assert forall|j: int| 0 <= j < source.views.len() implies same_view(
        #[trigger] after.tabs[place].views[j],
        source.views[j],
    ) by {
        assert(laws::tab_read(source));
        assert(laws::is_read(source.views[j]));
        assert(saved.views[j] == source.views[j].saved(app.workflows, app.numerals));
    }
    assert forall|j: int, id: u64|
        0 <= j < source.views.len() && #[trigger] source.views[j].selected_id(
            app.workflows,
            app.numerals,
        ) == Some(id) && #[trigger] view::row_of(
            after.shown_by(source.views[j]),
            id,
        ) is Some && after.shown_by(source.views[j]).len() <= usize::MAX implies after.tabs[place].views[j].selected_id(after.workflows, after.numerals)
        == Some(id) by {
        assert(same_view(after.tabs[place].views[j], source.views[j]));
        assert(saved.views[j] == source.views[j].saved(app.workflows, app.numerals));
        let shown = after.shown_by(source.views[j]);
        view::lemma_row_of(shown, id);
        assert(restored.views[j].visible(loaded, start.numerals) == shown);
    }
}

/// While workflows are refreshed, those that were shown keep the status and the metrics that were
/// known until newer ones come, and only those of which nothing was known count as loading.
pub proof fn law_refresh_keeps_known_status(app: AppModel, workflows: Seq<Workflow>, place: int)
    requires
        app.pending_load matches Some(pending) && pending.kind == LoadKind::Refresh,
        0 <= place < app.discovered(workflows).workflows.len(),
    ensures
        ({
            let after = app.discovered(workflows);
            let workflow = after.workflows[place];
            match tui::first_with_id(app.workflows, workflow.id) {
                Some(i) => {
                    &&& workflow.run_status == app.workflows[i].run_status
                    &&& workflow.is_in_progress == app.workflows[i].is_in_progress
                    &&& workflow.run_metrics == app.workflows[i].run_metrics
                    &&& !after.loading_status_ids.contains(workflow.id)
                },
                None => after.loading_status_ids.contains(workflow.id),
            }
        }),
{
    broadcast use vstd::seq_lib::group_filter_ensures;

    let after = app.discovered(workflows);
    let workflow = after.workflows[place];
    let current = workflows.map_values(|w: Workflow| tui::carried(w, app.workflows));
    if let Some(ids) = app.pending_load->0.workflow_ids {
        state::law_resolve_picks_current(ids, current);
        assert(state::resolved(ids, current).contains(workflow));
    } else {
        assert(current.contains(workflow));
    }
    let k = current.index_of(workflow);
    assert(workflow == tui::carried(workflows[k], app.workflows));
    assert(workflow.id == workflows[k].id);
    let ids = state::ids_of(after.workflows);
    let unknown = |id: u64|
        app.pending_load->0.kind != LoadKind::Refresh || tui::first_with_id(
            app.workflows,
            id,
        ) is None;
    assert(ids[place] == workflow.id);
    assert(ids.contains(workflow.id));
    if after.loading_status_ids.contains(workflow.id) {
        let m = after.loading_status_ids.index_of(workflow.id);
        assert(unknown(ids.filter(unknown)[m]));
    }
    if unknown(workflow.id) {
        assert(ids.filter(unknown).contains(ids[place]));
    }
}

/// A refresh leaves the tabs as they are, with their filters and sorts, but for what is selected.
pub proof fn law_refresh_keeps_tabs(app: AppModel, workflows: Seq<Workflow>, tab: int)
    requires
        app.pending_load matches Some(pending) && pending.kind == LoadKind::Refresh,
        0 <= tab < app.tabs.len(),
    ensures
        app.discovered(workflows).active_tab == app.active_tab,
        app.discovered(workflows).tabs.len() == app.tabs.len(),
        same_tab(app.discovered(workflows).tabs[tab], app.tabs[tab]),
{
    let after = app.discovered(workflows).tabs[tab];
    assert forall|j: int| 0 <= j < app.tabs[tab].views.len() implies same_view(
        #[trigger] after.views[j],
        app.tabs[tab].views[j],
    ) by {}
}

/// Whether the row that is selected in a view of one session shows the same workflow in another,
/// as far as the view shows it there.
pub open spec fn selection_follows(before: AppModel, after: AppModel, tab: int, list: int) -> bool {
    let was = before.tabs[tab].views[list];
    let is = after.tabs[tab].views[list];
    forall|id: u64|
        #![trigger view::row_of(after.shown_by(is), id)]
        was.selected_id(before.workflows, before.numerals) == Some(id) && view::row_of(
            after.shown_by(is),
            id,
        ) is Some && after.shown_by(is).len() <= usize::MAX ==> is.selected_id(
            after.workflows,
            after.numerals,
        ) == Some(id)
}

proof fn lemma_repair_follows(
    before: AppModel,
    middle: AppModel,
    tab: int,
    list: int,
)
    requires
        middle.tabs == before.tabs,
        middle.numerals == before.numerals,
        0 <= tab < before.tabs.len(),
        0 <= list < before.tabs[tab].views.len(),
    ensures
        selection_follows(before, middle.repaired(Some(before.selected_ids())), tab, list),
{
    let after = middle.repaired(Some(before.selected_ids()));
    let was = before.tabs[tab].views[list];
    let is = after.tabs[tab].views[list];
    assert(before.selected_ids()[tab][list] == was.selected_id(before.workflows, before.numerals));
    assert(is.visible(after.workflows, after.numerals) == was.visible(
        after.workflows,
        after.numerals,
    ));
    assert forall|id: u64|
        #![trigger view::row_of(after.shown_by(is), id)]
        was.selected_id(before.workflows, before.numerals) == Some(id) && view::row_of(
            after.shown_by(is),
            id,
        ) is Some && after.shown_by(is).len() <= usize::MAX implies is.selected_id(
        after.workflows,
        after.numerals,
    ) == Some(id) by {
        view::lemma_row_of(after.shown_by(is), id);
    }
}

/// The selection stays on its workflow when a refresh or the status of a workflow changes what
/// is shown.
pub proof fn law_refresh_keeps_selection(
    app: AppModel,
    workflows: Seq<Workflow>,
    workflow: Workflow,
    tab: int,
    list: int,
)
    requires
        app.pending_load matches Some(pending) && pending.kind == LoadKind::Refresh,
        0 <= tab < app.tabs.len(),
        0 <= list < app.tabs[tab].views.len(),
    ensures
        selection_follows(app, app.discovered(workflows), tab, list),
        selection_follows(app, app.status_loaded(workflow), tab, list),
{
    let pending = app.pending_load->0;
    let loaded = app.loaded_workflows(workflows);
    let found = AppModel {
        repository: pending.repository,
        workflows: loaded,
        loading_status_ids: app.unknown_ids(loaded),
        loaded_status_count: 0,
        state_path: app.path_then(),
        ..app
    };
    lemma_repair_follows(app, found, tab, list);
    let told = app.discovered(workflows);
    let silent = found.repaired(Some(app.selected_ids()));
    assert(told.tabs == silent.tabs && told.workflows == silent.workflows);
    assert forall|id: u64|
        #![trigger view::row_of(told.shown_by(told.tabs[tab].views[list]), id)]
        view::row_of(told.shown_by(told.tabs[tab].views[list]), id) == view::row_of(
            silent.shown_by(silent.tabs[tab].views[list]),
            id,
        ) by {}
    let known = app.status_loaded(workflow);
    let middle = AppModel {
        loading_status_ids: known.loading_status_ids,
        workflows: known.workflows,
        loaded_status_count: known.loaded_status_count,
        ..app
    };
    lemma_repair_follows(app, middle, tab, list);
}

/// The identifier of the workflow whose status an event tells of.
pub open spec fn told_of(event: LoadEvent) -> Option<u64> {
    match event {
        LoadEvent::WorkflowLoaded(workflow) => Some(workflow.id),
        LoadEvent::WorkflowFailed { id, .. } => Some(id),
        _ => None,
    }
}

/// A session behind some events of a load.
pub open spec fn after_events(app: AppModel, events: Seq<LoadEvent>, now: u64) -> AppModel
    decreases events.len(),
{
    if events.len() == 0 {
        app
    } else {
        after_events(app, events.drop_last(), now).load_event(events.last(), now)
    }
}

proof fn lemma_known_ids_stay(app: AppModel, event: LoadEvent, now: u64)
    requires
        told_of(event) is Some,
    ensures
        state::ids_of(app.load_event(event, now).workflows) == state::ids_of(app.workflows),
{
    if let LoadEvent::WorkflowLoaded(workflow) = event {
        tui::lemma_first_with_id(app.workflows, workflow.id);
        assert(state::ids_of(app.load_event(event, now).workflows) =~= state::ids_of(
            app.workflows,
        ));
    }
}

proof fn lemma_first_by_ids(a: Seq<Workflow>, b: Seq<Workflow>, id: u64)
    requires
        state::ids_of(a) == state::ids_of(b),
    ensures
        tui::first_with_id(a, id) is Some == tui::first_with_id(b, id) is Some,
        tui::first_with_id(a, id) is Some == state::ids_of(a).contains(id),
{
    tui::lemma_first_with_id(a, id);
    tui::lemma_first_with_id(b, id);
    assert(state::ids_of(a).len() == a.len() && state::ids_of(b).len() == b.len());
    if let Some(i) = tui::first_with_id(a, id) {
        assert(state::ids_of(a)[i] == id);
        assert(b[i].id == state::ids_of(b)[i]);
    }
    if let Some(i) = tui::first_with_id(b, id) {
        assert(state::ids_of(b)[i] == id);
        assert(a[i].id == state::ids_of(a)[i]);
    }
    if state::ids_of(a).contains(id) {
        let i = state::ids_of(a).index_of(id);
        assert(a[i].id == id);
    }
}

/// The workflows that are shown and that some events tell of.
pub open spec fn counted_ids(app: AppModel, events: Seq<LoadEvent>) -> Seq<u64>
    decreases events.len(),
{
    if events.len() == 0 {
        Seq::empty()
    } else {
        let before = counted_ids(app, events.drop_last());
        let id = told_of(events.last())->0;
        if state::ids_of(app.workflows).contains(id) {
            before.push(id)
        } else {
            before
        }
    }
}

proof fn lemma_counted(app: AppModel, events: Seq<LoadEvent>, now: u64)
    requires
        app.loaded_status_count == 0,
        app.workflows.len() <= u64::MAX,
        forall|i: int| 0 <= i < events.len() ==> told_of(#[trigger] events[i]) is Some,
        forall|i: int, j: int|
            0 <= i < j < events.len() ==> told_of(#[trigger] events[i]) != told_of(
                #[trigger] events[j],
            ),
    ensures
        state::ids_of(after_events(app, events, now).workflows) == state::ids_of(app.workflows),
        after_events(app, events, now).loaded_status_count == counted_ids(app, events).len(),
        counted_ids(app, events).no_duplicates(),
        counted_ids(app, events).len() <= app.workflows.len(),
        forall|k: int|
            0 <= k < counted_ids(app, events).len() ==> {
                let id = #[trigger] counted_ids(app, events)[k];
                &&& state::ids_of(app.workflows).contains(id)
                &&& exists|i: int| 0 <= i < events.len() && told_of(#[trigger] events[i]) == Some(id)
            },
    decreases events.len(),
{
    let ids = counted_ids(app, events);
    let all = state::ids_of(app.workflows);
    if events.len() > 0 {
        let front = events.drop_last();
        let last = events.last();
        let id = told_of(last)->0;
        assert(told_of(events[events.len() - 1]) is Some);
        lemma_counted(app, front, now);
        let before = after_events(app, front, now);
        lemma_known_ids_stay(before, last, now);
        lemma_first_by_ids(before.workflows, app.workflows, id);
        let rest = counted_ids(app, front);
        assert forall|k: int| 0 <= k < ids.len() implies {
            let id = #[trigger] ids[k];
            &&& all.contains(id)
            &&& exists|i: int| 0 <= i < events.len() && told_of(#[trigger] events[i]) == Some(id)
        } by {
            if k < rest.len() {
                assert(ids[k] == rest[k]);
                let i = choose|i: int|
                    0 <= i < front.len() && told_of(#[trigger] front[i]) == Some(rest[k]);
                assert(told_of(events[i]) == Some(ids[k]));
            } else {
                assert(told_of(events[events.len() - 1]) == Some(ids[k]));
            }
        }
        assert(ids.no_duplicates()) by {
            assert forall|k: int, m: int| 0 <= k < ids.len() && 0 <= m < ids.len() && k
                != m implies ids[k] != ids[m] by {
                if k < rest.len() && m < rest.len() {
                    assert(rest[k] != rest[m]);
                } else {
                    let early = if k < m {
                        k
                    } else {
                        m
                    };
                    let i = choose|i: int|
                        0 <= i < front.len() && told_of(#[trigger] front[i]) == Some(rest[early]);
                    assert(told_of(events[i]) != told_of(events[events.len() - 1]));
                }
            }
        }
    }
    assert(ids.to_set().subset_of(all.to_set())) by {
        assert forall|id: u64| #[trigger] ids.to_set().contains(id) implies all.to_set().contains(
            id,
        ) by {
            let k = ids.index_of(id);
            assert(all.contains(ids[k]));
        }
    }
    ids.unique_seq_to_set();
    all.lemma_cardinality_of_set();
    vstd::set_lib::lemma_len_subset(ids.to_set(), all.to_set());
    assert(all.len() == app.workflows.len());
}

/// The progress that is shown never exceeds the number of workflows, where each status is told of
/// once.
pub proof fn law_progress_stays_within_total(app: AppModel, events: Seq<LoadEvent>, now: u64)
    requires
        app.loaded_status_count == 0,
        app.workflows.len() <= u64::MAX,
        forall|i: int| 0 <= i < events.len() ==> told_of(#[trigger] events[i]) is Some,
        forall|i: int, j: int|
            0 <= i < j < events.len() ==> told_of(#[trigger] events[i]) != told_of(
                #[trigger] events[j],
            ),
    ensures
        after_events(app, events, now).loaded_status_count <= after_events(
            app,
            events,
            now,
        ).workflows.len(),
        after_events(app, events, now).workflows.len() == app.workflows.len(),
{
    lemma_counted(app, events, now);
    let after = after_events(app, events, now);
    assert(state::ids_of(after.workflows).len() == after.workflows.len());
    assert(state::ids_of(app.workflows).len() == app.workflows.len());
}

/// Only the workflows that are shown in the end have their status loaded.
pub proof fn law_targets_are_those_wanted(
    workflows: Seq<Workflow>,
    wanted: Option<Seq<u64>>,
    workflow: Workflow,
)
    requires
        tui::targets_of(workflows, wanted).contains(workflow),
    ensures
        wanted matches Some(ids) ==> ids.contains(workflow.id),
        workflows.contains(workflow),
{
    broadcast use vstd::seq_lib::group_filter_ensures;

    let targets = tui::targets_of(workflows, wanted);
    let test = |workflow: Workflow| wanted is None || wanted->0.contains(workflow.id);
    workflows.lemma_filter_contains_rev(test, workflow);
    let k = targets.index_of(workflow);
    assert(targets[k] == workflow);
    assert(test(targets[k]));
}

/// Refreshes at an interval load workflows and never start a triage, nor do they touch a tab.
pub proof fn law_interval_refresh_leaves_triage_alone(app: AppModel, now: u64)
    ensures
        app.due_refresh(now).1 is Nothing || app.due_refresh(now).1 is Load,
        app.due_refresh(now).0.tabs == app.tabs,
        app.due_refresh(now).0.triage == app.triage,
        app.due_refresh(now).0.triage_running == app.triage_running,
{
}

/// Starting a triage changes no tab, and asks for failing workflows of the active view alone.
pub proof fn law_triage_takes_failing_workflows(app: AppModel)
    ensures
        app.triage_started().0.tabs == app.tabs,
        app.triage_started().0.workflows == app.workflows,
        app.triage_started().0.pending_load == app.pending_load,
        app.triage_started().1 matches EffectModel::Triage { workflows, .. } ==> forall|i: int|
            0 <= i < workflows.len() ==> {
                &&& (#[trigger] workflows[i]).run_status == crate::github::RunStatus::Failure
                &&& app.visible().contains(workflows[i])
            },
{
    broadcast use vstd::seq_lib::group_filter_ensures;

    reveal(AppModel::triage_started);
    if let EffectModel::Triage { workflows, .. } = app.triage_started().1 {
        assert forall|i: int| 0 <= i < workflows.len() implies {
            &&& (#[trigger] workflows[i]).run_status == crate::github::RunStatus::Failure
            &&& app.visible().contains(workflows[i])
        } by {
            let fails = |workflow: Workflow| workflow.run_status == crate::github::RunStatus::Failure;
            assert(app.visible().filter(fails)[i] == workflows[i]);
            app.visible().lemma_filter_contains_rev(fails, workflows[i]);
        }
    }
}

/// The findings of a triage come in a tab of their own and leave all other tabs as they are; a
/// triage that is run again shows its findings in its tab, and opens none.
pub proof fn law_findings_leave_other_tabs(app: AppModel, results: Seq<TriageModel>)
    requires
        app.is_sound(),
        app.tabs.len() < usize::MAX,
    ensures
        app.triage_target matches Some(TriageTarget::NewTab { .. }) ==> {
            let after = app.triage_ended(Ok(results));
            &&& after.tabs.remove(after.active_tab as int) == app.tabs
            &&& after.active().is_triage
        },
        app.triage_target matches Some(TriageTarget::RefreshTab { index }) ==> {
            let after = app.triage_ended(Ok(results));
            &&& after.tabs.len() == app.tabs.len()
            &&& after.active_tab == app.active_tab
            &&& forall|i: int|
                0 <= i < app.tabs.len() && i != index ==> #[trigger] after.tabs[i] == app.tabs[i]
        },
{
    let after = app.triage_ended(Ok(results));
    if let Some(TriageTarget::NewTab { .. }) = app.triage_target {
        assert(after.tabs.remove(after.active_tab as int) =~= app.tabs);
    }
}

/// The findings of a triage that is run again go to the tab that it was run for, whatever tabs
/// are opened and closed meanwhile; where that tab is closed they go to none.
pub proof fn law_rerun_follows_its_tab(app: AppModel, index: usize, argument: Option<Seq<char>>)
    requires
        app.is_sound(),
        app.tabs.len() < usize::MAX,
        app.triage_target == Some(TriageTarget::RefreshTab { index }),
        index < app.tabs.len(),
    ensures
        ({
            let after = app.tab_opened(argument);
            &&& after.triage_target matches Some(TriageTarget::RefreshTab { index: place })
            &&& place < after.tabs.len()
            &&& after.tabs[place as int] == app.tabs[index as int]
        }),
        ({
            let after = app.tab_closed();
            if app.active_tab == index {
                after.triage_target is None
            } else {
                &&& after.triage_target matches Some(TriageTarget::RefreshTab { index: place })
                &&& place < after.tabs.len()
                &&& after.tabs[place as int] == app.tabs[index as int]
            }
        }),
{
    reveal(AppModel::tab_opened);
    reveal(AppModel::tab_closed);
}

/// A session ends by a write only where it was asked for and the write succeeded; a path is
/// remembered only where the write succeeded.
pub proof fn law_failed_write_does_not_quit(
    app: AppModel,
    path: Seq<char>,
    error: Option<Seq<char>>,
    quit: bool,
)
    ensures
        app.state_written(path, error, quit).should_quit == (app.should_quit || quit
            && error is None),
        app.state_written(path, error, quit).state_path == (if error is None {
            Some(path)
        } else {
            app.state_path
        }),
{
}

/// A path that was written to stays remembered, whatever comes of a load that is under way,
/// unless the load opens another file.
pub proof fn law_written_path_is_remembered(
    app: AppModel,
    path: Seq<char>,
    quit: bool,
    events: Seq<LoadEvent>,
    now: u64,
)
    requires
        app.pending_load matches Some(pending) ==> pending.kind != LoadKind::Edit,
    ensures
        after_events(app.state_written(path, None, quit), events, now).state_path == Some(path),
{
    lemma_path_stays(app.state_written(path, None, quit), events, now);
}

proof fn lemma_path_stays(app: AppModel, events: Seq<LoadEvent>, now: u64)
    requires
        app.state_path is Some,
        app.pending_load matches Some(pending) ==> pending.kind != LoadKind::Edit,
    ensures
        ({
            let after = after_events(app, events, now);
            &&& after.state_path == app.state_path
            &&& after.pending_load matches Some(pending) ==> pending.kind != LoadKind::Edit
        }),
    decreases events.len(),
{
    if events.len() > 0 {
        lemma_path_stays(app, events.drop_last(), now);
    }
}

/// Deleting the character before the cursor undoes typing one.
pub proof fn law_backspace_undoes_typing(app: AppModel, c: char)
    requires
        app.is_sound(),
        app.command_cursor < usize::MAX,
    ensures
        app.typed(c).deleted_before() == app,
{
    assert(app.typed(c).deleted_before().command =~= app.command);
}

/// Going back in the history and on again comes back to the command that was being edited.
pub proof fn law_history_returns_to_draft(app: AppModel)
    requires
        app.is_sound(),
        app.history_index is None,
        app.command.len() <= usize::MAX,
        app.command_history.len() > 0,
    ensures
        app.history_back().command == app.command_history.last(),
        app.history_back().history_on().command == app.command,
        app.history_back().history_on().history_index is None,
{
}

} // verus!
