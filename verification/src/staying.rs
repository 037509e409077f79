//! What stays selected, saved and said.
use vstd::prelude::*;
use vstd::string::*;

use crate::cache::CachedRun;
use crate::command;
use crate::fetch::FetchModel;
use crate::github::{TriageModel, Workflow};
use crate::layout::Rect;
use crate::loading;
use crate::query;
use crate::screen::ContentsModel;
use crate::state;
use crate::steering;
use crate::text;
use crate::tui::{AppModel, LoadKind, TriageTarget};
use crate::view::{self, ListModel};

verus! {

/// Behind rows that were deleted the row that comes in their place is selected, or the last one;
/// none where no row is left. It is said how many were deleted.
pub proof fn law_deletion_selects_next(app: AppModel, row: usize, count: usize)
    requires
        app.is_sound(),
        app.active_view().table_state.selected == Some(row),
        row < app.visible().len() <= usize::MAX,
        count > 0,
    ensures
        ({
            let after = app.rows_deleted(count);
            let left = after.visible().len() as int;
            let gone = steering::lesser(count as int, app.visible().len() - row);
            &&& left == 0 ==> after.active_view().table_state.selected is None
            &&& 0 < left <= usize::MAX ==> after.active_view().table_state.selected == Some(
                steering::lesser(row as int, left - 1) as usize,
            )
            &&& after.message == Some(
                if gone == 1 {
                    "1 workflow deleted"@
                } else {
                    text::decimal(gone as nat) + " workflows deleted"@
                },
            )
        }),
{
    reveal(AppModel::rows_deleted);
    assert(app.tabs[app.active_tab as int].is_sound());
    let deleted = app.rows_from(row, count);
    let rest = app.without(deleted);
    assert(rest.selecting(None).visible() == rest.visible());
    assert(rest.selecting(Some(row)).visible() == rest.visible());
}

/// Without a selected row nothing is deleted.
pub proof fn law_nothing_selected_deletes_none(app: AppModel, count: usize)
    requires
        app.active_view().table_state.selected is None,
    ensures
        app.rows_deleted(count) == (AppModel { message: Some("E749: Empty buffer"@), ..app }),
{
    reveal(AppModel::rows_deleted);
}

/// The selection of a triage tab that is run again stays on its workflow as far as that is among
/// the new findings, and is on the first one otherwise.
pub proof fn law_rerun_keeps_selection(
    app: AppModel,
    index: usize,
    results: Seq<TriageModel>,
    id: u64,
    row: int,
)
    requires
        app.is_sound(),
        index < app.tabs.len(),
        app.tabs[index as int].is_triage,
        app.triage_target == Some(TriageTarget::RefreshTab { index }),
    ensures
        ({
            let before = app.tabs[index as int].active();
            let after = app.triage_ended(Ok(results)).tabs[index as int].active();
            let shown = after.visible(app.workflows, app.numerals);
            &&& after.workflow_ids == results.map_values(
                |result: TriageModel| result.workflow_id,
            )
            &&& before.selected_id(app.workflows, app.numerals) == Some(id) && loading::is_row_of(
                shown,
                row,
                id,
            ) && shown.len() <= usize::MAX ==> after.table_state.selected == Some(row as usize)
            &&& before.selected_id(app.workflows, app.numerals) is None && results.len() > 0
                ==> after.table_state.selected == Some(0usize)
        }),
{
    let ids = crate::actions::result_ids(results);
    let tab = app.tabs[index as int];
    assert(tab.is_sound());
    let before = tab.active();
    let held = ListModel { workflow_ids: ids, ..before };
    let after = app.triage_ended(Ok(results)).tabs[index as int].active();
    assert(ids =~= results.map_values(|result: TriageModel| result.workflow_id));
    assert(after.visible(app.workflows, app.numerals) == held.visible(app.workflows, app.numerals));
    loading::law_row_is_first(held.visible(app.workflows, app.numerals), row, id);
}

/// What is saved of a session is its repository, its workflows in their order, and the identifiers
/// of the rows that are selected.
pub proof fn law_saved_session_lists_workflows(app: AppModel, list: ListModel, row: usize)
    ensures
        app.saved().repository == app.repository,
        app.saved().workflow_ids == app.workflows.map_values(|w: Workflow| w.id),
        list.table_state.selected == Some(row) && row < list.visible(
            app.workflows,
            app.numerals,
        ).len() ==> list.saved(app.workflows, app.numerals).selected_workflow_id == Some(
            list.visible(app.workflows, app.numerals)[row as int].id,
        ),
        list.table_state.selected is None ==> list.saved(
            app.workflows,
            app.numerals,
        ).selected_workflow_id is None,
        list.saved(app.workflows, app.numerals).workflow_ids == list.workflow_ids,
        list.saved(app.workflows, app.numerals).filter == list.filter,
        list.saved(app.workflows, app.numerals).sort == list.sort,
{
    reveal(AppModel::saved);
    assert(state::ids_of(app.workflows) =~= app.workflows.map_values(|w: Workflow| w.id));
}

/// A fetch gathers the runs of its pages in their order, and keeps the validator of the first page
/// alone; what it comes to is cached with that.
pub proof fn law_fetch_keeps_first_validator(
    fetch: FetchModel,
    page: Seq<CachedRun>,
    etag: Option<Seq<char>>,
)
    ensures
        fetch.with_page(page, etag).fetched == fetch.fetched + page,
        fetch.page_number == 1 ==> fetch.with_page(page, etag).etag == etag,
        fetch.page_number != 1 ==> fetch.with_page(page, etag).etag == fetch.etag,
        fetch.outcome().1.etag == fetch.etag,
        fetch.unchanged().1.etag == fetch.etag,
        fetch.with_page(page, etag).runs_path == fetch.runs_path,
        fetch.with_page(page, etag).page_number == fetch.page_number,
{
}

/// A fetch starts at the first page with what is cached.
pub proof fn law_fetch_starts_with_cache(
    path: Seq<char>,
    now: crate::cache::Timestamp,
    cached: crate::cache::CachedModel,
)
    ensures
        ({
            let fetch = FetchModel::start(path, now, cached);
            &&& fetch.page_number == 1
            &&& fetch.etag == cached.etag
            &&& fetch.cached == cached
            &&& fetch.fetched.len() == 0
            &&& fetch.next_request() == (path + "&page="@ + text::decimal(1), cached.etag)
        }),
{
}

/// A pane is titled with the repository and the number of workflows that it shows; where it shows
/// none, it says whether a load is under way or a filter keeps them back.
pub proof fn law_panes_are_titled(app: AppModel, place: usize, area: Rect, flash: bool)
    ensures
        ({
            let list = app.active().views[place as int];
            let shown = list.visible(app.workflows, app.numerals);
            let pane = app.pane_shown(place, area, flash);
            &&& pane.title == " "@ + (app.repository.owner + "/"@ + app.repository.name + " - "@ + (
            text::decimal(shown.len()) + " active workflows"@)) + " "@
            &&& shown.len() == 0 ==> pane.contents == ContentsModel::Message(
                if app.pending_load is Some {
                    "Loading GitHub Actions workflows..."@
                } else if list.filter is Some {
                    "No workflows match this view's filter."@
                } else {
                    "This view has no active GitHub Actions workflows."@
                },
            )
        }),
{
}

/// Views and tabs are counted from one in what is said of them.
pub proof fn law_places_are_counted_from_one(app: AppModel, place: usize)
    ensures
        app.focusing(place).message == Some(
            "View "@ + (text::decimal((place + 1) as nat) + " focused"@),
        ),
        app.at_tab(place as int).message == Some("Tab "@ + text::decimal((place + 1) as nat)),
{
}

/// The history of earlier sessions is that of its file, and empty where there is no file; where it
/// cannot be read or has no place, that is said.
pub proof fn law_history_is_opened(
    app: AppModel,
    path: Seq<char>,
    contents: Seq<char>,
    error: Seq<char>,
)
    ensures
        app.history_opened(Some(path), Ok(Some(contents))).command_history == command::history_of(
            contents,
        ),
        app.history_opened(Some(path), Ok(None)).command_history.len() == 0,
        app.history_opened(Some(path), Ok(Some(contents))).command_history_path == Some(path),
        app.history_opened(Some(path), Err(error)).command_history == app.command_history,
        app.history_opened(Some(path), Err(error)).message == Some(
            "E886: Could not load command history: "@ + error,
        ),
        app.history_opened(None, Ok(None)).command_history_path == app.command_history_path,
        app.history_opened(None, Ok(None)).message is Some,
{
}

/// A state file that was written is remembered, and said with the number of workflows; the session
/// ends where that was asked for. One that could not be written is said.
pub proof fn law_written_state_is_said(
    app: AppModel,
    path: Seq<char>,
    error: Seq<char>,
    quit: bool,
)
    ensures
        ({
            let after = app.state_written(path, None, quit);
            &&& after.state_path == Some(path)
            &&& after.should_quit == (app.should_quit || quit)
            &&& after.message == Some(
                "\""@ + path + "\" "@ + (text::decimal(app.workflows.len()) + " workflows written"@),
            )
        }),
        ({
            let after = app.state_written(path, Some(error), quit);
            &&& after.state_path == app.state_path
            &&& after.should_quit == app.should_quit
            &&& after.message == Some("E212: "@ + error)
            &&& after == (if quit {
                AppModel { message: after.message, ..app }.command_done()
            } else {
                AppModel { message: after.message, ..app }
            })
        }),
        app.command_done() == (AppModel {
            mode: crate::tui::Mode::Normal,
            command: Seq::empty(),
            command_cursor: 0,
            history_index: None,
            history_draft: Seq::empty(),
            ..app
        }),
{
}

/// When a load begins, what was said and what failed before is forgotten, and nothing is loaded
/// yet; the tabs and the workflows stay until newer ones are there.
pub proof fn law_load_begins_anew(app: AppModel)
    requires
        app.pending_load is None,
        !app.triage_running,
    ensures
        ({
            let after = app.refreshing().0;
            &&& (after.pending_load matches Some(load) && load.kind == LoadKind::Refresh
                && load.repository == app.repository && load.workflow_ids == Some(
                app.workflows.map_values(|w: Workflow| w.id),
            ))
            &&& after.load_failures.len() == 0
            &&& after.loaded_status_count == 0
            &&& after.loading_status_ids.len() == 0
            &&& after.message is None
            &&& after.workflows == app.workflows
            &&& after.tabs == app.tabs
        }),
{
    assert(state::ids_of(app.workflows) =~= app.workflows.map_values(|w: Workflow| w.id));
}

/// A tab of one view shows what the view holds in the place of the whole area; a tab that was saved
/// has the views that were saved, and its active view, or the last one.
pub proof fn law_saved_tabs_have_views(saved: state::SavedTabModel, k: int)
    requires
        0 <= k < saved.views.len() <= usize::MAX,
    ensures
        ({
            let tab = view::TabModel::restored(saved);
            &&& tab.name == saved.name
            &&& tab.layout == saved.layout
            &&& tab.views.len() == saved.views.len()
            &&& tab.views[k].workflow_ids == saved.views[k].workflow_ids
            &&& tab.views[k].filter == saved.views[k].filter
            &&& tab.views[k].sort == saved.views[k].sort
            &&& tab.views[k].table_state.selected is None
            &&& !tab.is_triage
            &&& tab.active_view == steering::lesser(
                saved.active_view as int,
                saved.views.len() - 1,
            )
            &&& (saved.views[k].filter matches Some(t) ==> match query::filter_of(t) {
                Ok(filter) => tab.views[k].filter_expression == Some(filter),
                Err(_) => tab.views[k].filter_expression is None,
            })
            &&& (saved.views[k].sort matches Some(t) ==> match query::sort_of(t) {
                Ok(sort) => tab.views[k].sort_spec == Some(sort),
                Err(_) => tab.views[k].sort_spec is None,
            })
        }),
{
}

/// A refresh rate that is no number changes nothing but what is said.
pub proof fn law_bad_rates_are_refused(app: AppModel, argument: Seq<char>, k: int, now: u64)
    requires
        0 <= k < argument.len(),
        !('0' <= argument[k] <= '9'),
        k > 0 || argument[k] != '+',
    ensures
        app.with_refresh_rate(Some(argument), now) == (AppModel {
            message: Some("E474: Invalid argument: "@ + argument),
            ..app
        }),
        app.with_refresh_rate(None, now) == (AppModel {
            message: Some("E471: Argument required"@),
            ..app
        }),
{
    reveal(AppModel::with_refresh_rate);
    if k > 0 {
        assert(argument.skip(1)[k - 1] == argument[k]);
    }
    if text::all_digits(argument) {
        assert(text::is_digit(argument[k]));
    }
    if text::all_digits(argument.skip(1)) && k > 0 {
        assert(text::is_digit(argument.skip(1)[k - 1]));
    }
}

/// A command is run also where the history could not be saved, which is said before.
pub proof fn law_unsaved_history_stops_no_command(
    app: AppModel,
    error: Seq<char>,
    now: u64,
    effect: crate::tui::EffectModel,
    after: AppModel,
)
    ensures
        app.may_go_on(None, now, effect, after) == app.may_run(
            text::trimmed(app.command),
            now,
            effect,
            after,
        ),
        app.may_go_on(Some(error), now, effect, after) == (AppModel {
            message: Some("E886: Could not save command history: "@ + error),
            ..app
        }).may_run(text::trimmed(app.command), now, effect, after),
{
}

/// A command without a path, or with an empty one, is about the path that is remembered.
pub proof fn law_paths_are_remembered(given: Seq<char>, remembered: Option<Seq<char>>)
    ensures
        command::path_of(None, remembered) == remembered,
        command::path_of(Some(Seq::empty()), remembered) == remembered,
        given.len() > 0 ==> command::path_of(Some(given), remembered) == Some(given),
{
}

/// A table keeps its place where a row is selected, and goes to the top where none is.
pub proof fn law_tables_keep_place(table: view::TableState, row: usize)
    ensures
        table.selecting(Some(row)).selected == Some(row),
        table.selecting(Some(row)).offset == table.offset,
        table.selecting(None).selected is None,
        table.selecting(None).offset == 0,
{
}

/// A session that starts with saved tabs has them all, with the first row of each view selected
/// where there is one, at the tab that was active, or at the last one.
pub proof fn law_session_starts_with_saved_tabs(
    repository: crate::repository::RepositoryModel,
    workflows: Seq<Workflow>,
    path: Option<Seq<char>>,
    saved: Seq<state::SavedTabModel>,
    active_tab: usize,
    now: u64,
    tab: int,
    list: int,
)
    requires
        0 < saved.len() <= usize::MAX,
        0 <= tab < saved.len(),
        0 <= list < saved[tab].views.len(),
    ensures
        ({
            let app = AppModel::start(repository, workflows, path, Some((saved, active_tab)), now);
            let shown = app.tabs[tab].views[list].visible(workflows, app.numerals);
            &&& app.tabs.len() == saved.len()
            &&& app.active_tab == steering::lesser(active_tab as int, saved.len() - 1)
            &&& app.tabs[tab].name == saved[tab].name
            &&& app.tabs[tab].layout == saved[tab].layout
            &&& app.tabs[tab].views.len() == saved[tab].views.len()
            &&& app.tabs[tab].views[list].workflow_ids == saved[tab].views[list].workflow_ids
            &&& app.tabs[tab].views[list].table_state.selected == (if shown.len() > 0 {
                Some(0usize)
            } else {
                None
            })
        }),
{
    let app = AppModel::start(repository, workflows, path, Some((saved, active_tab)), now);
    let plain = view::TabModel::restored(saved[tab]);
    let before = plain.views[list];
    let after = app.tabs[tab].views[list];
    assert(after.workflow_ids == before.workflow_ids);
    assert(after.visible(workflows, app.numerals) == before.visible(workflows, app.numerals));
}

/// What is wrong with a state file is put in words that name the file and the reason.
pub proof fn law_state_errors_have_words(path: Seq<char>, why: Seq<char>, version: u32)
    ensures
        (state::StateErrorModel::Read { path, source: why }).words() == "could not read state file "@
            + path + ": "@ + why,
        (state::StateErrorModel::Write { path, source: why }).words()
            == "could not write state file "@ + path + ": "@ + why,
        (state::StateErrorModel::Deserialize { path, source: why }).words() == "state file "@ + path
            + " is not valid JSON: "@ + why,
        (state::StateErrorModel::UnsupportedVersion { found: version }).words()
            == "state file version "@ + text::decimal(version as nat)
            + " is not supported (expected 1)"@,
{
}

/// Where all tabs up to the active one are those of a triage, the first tab that is saved is the
/// active one.
pub proof fn law_first_saved_tab_is_active(app: AppModel)
    requires
        forall|i: int| 0 <= i <= app.active_tab ==> (#[trigger] app.tabs[i]).is_triage,
    ensures
        app.saved().active_tab == 0,
{
    reveal(AppModel::saved);
    lemma_no_normal(app, app.active_tab + 1);
}

proof fn lemma_no_normal(app: AppModel, upto: int)
    requires
        forall|i: int| 0 <= i < upto ==> (#[trigger] app.tabs[i]).is_triage,
    ensures
        app.normal_tabs(upto).len() == 0,
    decreases upto,
{
    if upto > 0 {
        lemma_no_normal(app, upto - 1);
        assert(app.tabs[upto - 1].is_triage);
    }
}

} // verus!
