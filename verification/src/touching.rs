//! What each step of a session leaves as it is.
use vstd::prelude::*;

use crate::command::CommandModel;
use crate::github::{TriageModel, Workflow};
use crate::keys::{Key, KeyPress};
use crate::layout::FocusDirection;
use crate::panes::{ResizeAmount, ResizeAxis};
use crate::tui::{AppModel, EffectModel, LoadEvent, Mode};
use crate::view::{ListModel, TabModel};

verus! {

/// Whether two sessions differ at most in what is selected in the active view.
pub open spec fn same_but_selection(app: AppModel, after: AppModel) -> bool {
    &&& after == (AppModel { tabs: after.tabs, pending_g: after.pending_g, ..app })
    &&& after.tabs.len() == app.tabs.len()
    &&& forall|i: int|
        0 <= i < app.tabs.len() && i != app.active_tab ==> #[trigger] after.tabs[i] == app.tabs[i]
    &&& after.active() == (TabModel { views: after.active().views, ..app.active() })
    &&& after.active().views.len() == app.active().views.len()
    &&& forall|j: int|
        0 <= j < app.active().views.len() && j != app.active().active_view
            ==> #[trigger] after.active().views[j] == app.active().views[j]
    &&& after.active_view() == (ListModel {
        table_state: after.active_view().table_state,
        ..app.active_view()
    })
}

/// A key that moves the selection changes nothing else.
pub proof fn law_moving_touches_selection(
    app: AppModel,
    press: KeyPress,
    now: u64,
    effect: EffectModel,
    after: AppModel,
)
    requires
        app.is_sound(),
        app.mode == Mode::Normal,
        !app.pending_ctrl_w,
        !(press.control && (press.code == Key::Tab || press.code == Key::BackTab || press.code
            == Key::Char('w'))),
        press.code != Key::Char(':'),
        app.may_answer(press, now, effect, after),
    ensures
        same_but_selection(app, after),
{
    assert(app.tabs[app.active_tab as int].is_sound());
}

/// Editing the command line changes the command line, and nothing else.
pub proof fn law_editing_touches_command_line(
    app: AppModel,
    press: KeyPress,
    now: u64,
    effect: EffectModel,
    after: AppModel,
)
    requires
        app.mode == Mode::Command,
        press.code != Key::Enter,
        !(press.control && (press.code == Key::Tab || press.code == Key::BackTab)),
        app.may_answer(press, now, effect, after),
    ensures
        after == (AppModel {
            mode: after.mode,
            command: after.command,
            command_cursor: after.command_cursor,
            history_index: after.history_index,
            history_draft: after.history_draft,
            ..app
        }),
        effect is Nothing,
        press.code != Key::Esc ==> after.mode == Mode::Command,
{
}

/// Whether two sessions differ at most in the active tab and in what is said.
pub open spec fn same_but_active_tab(app: AppModel, after: AppModel) -> bool {
    &&& after == (AppModel { tabs: after.tabs, message: after.message, ..app })
    &&& after.tabs.len() == app.tabs.len()
    &&& forall|i: int|
        0 <= i < app.tabs.len() && i != app.active_tab ==> #[trigger] after.tabs[i] == app.tabs[i]
}

/// Whether two sessions differ at most in the layout of the active tab and in what is said.
pub open spec fn same_but_layout(app: AppModel, after: AppModel) -> bool {
    &&& same_but_active_tab(app, after)
    &&& after.active() == (TabModel { layout: after.active().layout, ..app.active() })
}

/// Making views equal and resizing change the layout of the active tab and what is said.
pub proof fn law_resizing_touches_layout(
    app: AppModel,
    axis: ResizeAxis,
    amount: ResizeAmount,
    argument: Option<Seq<char>>,
    after: AppModel,
)
    requires
        app.is_sound(),
    ensures
        same_but_layout(app, app.equalized()),
        app.may_resize(axis, amount, after) ==> same_but_layout(app, after),
        app.may_resize_by(argument, after) ==> same_but_layout(app, after),
{
    reveal(AppModel::may_resize_by);
    if app.may_resize(axis, amount, after) {
        lemma_resized(app, axis, amount, after);
    }
    if app.may_resize_by(argument, after) {
        if let Ok((other_axis, other_amount)) = AppModel::resize_request(argument->0) {
            if app.may_resize(other_axis, other_amount, after) {
                lemma_resized(app, other_axis, other_amount, after);
            }
        }
    }
}

proof fn lemma_resized(app: AppModel, axis: ResizeAxis, amount: ResizeAmount, after: AppModel)
    requires
        app.is_sound(),
        app.may_resize(axis, amount, after),
    ensures
        same_but_layout(app, after),
{
}

/// Moving the focus and clicking change which view of the active tab is active, and what is said.
pub proof fn law_focusing_touches_active_view(
    app: AppModel,
    direction: FocusDirection,
    column: u16,
    row: u16,
)
    requires
        app.is_sound(),
    ensures
        ({
            let after = app.focus_moved(direction);
            &&& same_but_active_tab(app, after)
            &&& after.active() == (TabModel {
                active_view: after.active().active_view,
                ..app.active()
            })
        }),
        ({
            let after = app.clicked(column, row);
            &&& same_but_active_tab(app, after)
            &&& after.active() == (TabModel {
                active_view: after.active().active_view,
                ..app.active()
            })
        }),
{
}

/// Splitting changes the views, the layout and the active view of the active tab, and what is
/// said.
pub proof fn law_splitting_touches_tab(app: AppModel, argument: Option<Seq<char>>)
    requires
        app.is_sound(),
    ensures
        ({
            let after = app.split(argument);
            &&& same_but_active_tab(app, after)
            &&& after.active() == (TabModel {
                views: after.active().views,
                layout: after.active().layout,
                active_view: after.active().active_view,
                ..app.active()
            })
        }),
{
    reveal(AppModel::split);
}

/// What concerns tabs changes the tabs, which one is active, where findings go, and what is said.
pub proof fn law_tab_commands_touch_tabs(app: AppModel, argument: Option<Seq<char>>)
    ensures
        ({
            let after = app.tab_opened(argument);
            after == (AppModel {
                tabs: after.tabs,
                active_tab: after.active_tab,
                triage_target: after.triage_target,
                message: after.message,
                ..app
            })
        }),
        ({
            let after = app.tab_closed();
            after == (AppModel {
                tabs: after.tabs,
                active_tab: after.active_tab,
                triage_target: after.triage_target,
                message: after.message,
                ..app
            })
        }),
        ({
            let after = app.tab_named(argument);
            after == (AppModel { tabs: after.tabs, message: after.message, ..app })
        }),
{
    reveal(AppModel::tab_opened);
    reveal(AppModel::tab_closed);
    reveal(AppModel::tab_named);
}

/// A refresh rate changes the interval, when the next refresh is due, and what is said.
pub proof fn law_rate_touches_interval(app: AppModel, argument: Option<Seq<char>>, now: u64)
    ensures
        ({
            let after = app.with_refresh_rate(argument, now);
            after == (AppModel {
                refresh_interval: after.refresh_interval,
                next_refresh: after.next_refresh,
                message: after.message,
                ..app
            })
        }),
{
    reveal(AppModel::with_refresh_rate);
}

/// What happens while workflows are loaded leaves alone the mode, the command line and its
/// history, a triage and its findings, and the refresh rate.
pub proof fn law_loading_touches_workflows(app: AppModel, event: LoadEvent, now: u64)
    ensures
        ({
            let after = app.load_event(event, now);
            after == (AppModel {
                repository: after.repository,
                workflows: after.workflows,
                state_path: after.state_path,
                pending_load: after.pending_load,
                load_failures: after.load_failures,
                loaded_status_count: after.loaded_status_count,
                loading_status_ids: after.loading_status_ids,
                tabs: after.tabs,
                active_tab: after.active_tab,
                next_refresh: after.next_refresh,
                message: after.message,
                ..app
            })
        }),
{
}

/// A status that is loaded, or could not be, leaves the tabs as they are but for what is selected,
/// and the load goes on.
pub proof fn law_status_touches_workflow(
    app: AppModel,
    workflow: Workflow,
    id: u64,
    name: Seq<char>,
    error: Seq<char>,
    tab: int,
    list: int,
)
    requires
        0 <= tab < app.tabs.len(),
        0 <= list < app.tabs[tab].views.len(),
    ensures
        ({
            let after = app.status_loaded(workflow);
            &&& after == (AppModel {
                workflows: after.workflows,
                loading_status_ids: after.loading_status_ids,
                loaded_status_count: after.loaded_status_count,
                tabs: after.tabs,
                ..app
            })
            &&& after.tabs.len() == app.tabs.len()
            &&& after.tabs[tab] == (TabModel { views: after.tabs[tab].views, ..app.tabs[tab] })
            &&& after.tabs[tab].views.len() == app.tabs[tab].views.len()
            &&& after.tabs[tab].views[list] == (ListModel {
                table_state: after.tabs[tab].views[list].table_state,
                ..app.tabs[tab].views[list]
            })
        }),
        ({
            let after = app.status_failed(id, name, error);
            after == (AppModel {
                loading_status_ids: after.loading_status_ids,
                loaded_status_count: after.loaded_status_count,
                load_failures: after.load_failures,
                message: after.message,
                ..app
            })
        }),
{
}

/// The end of a triage changes the findings, the tabs, and what is said, and nothing is under way
/// any more.
pub proof fn law_triage_end_touches_findings(
    app: AppModel,
    result: Result<Seq<TriageModel>, Seq<char>>,
)
    ensures
        ({
            let after = app.triage_ended(result);
            &&& after == (AppModel {
                triage_running: false,
                triage_target: None,
                triage: after.triage,
                tabs: after.tabs,
                active_tab: after.active_tab,
                message: after.message,
                ..app
            })
            &&& (result matches Err(error) ==> after.tabs == app.tabs && after.triage == app.triage
                && after.active_tab == app.active_tab && after.message == Some("E484: "@ + error))
        }),
{
}

/// A command that is run closes the command line; one that only quits, or quits behind a write,
/// leaves it to the end of the session.
pub proof fn law_commands_close_line(
    app: AppModel,
    command: Seq<char>,
    now: u64,
    effect: EffectModel,
    after: AppModel,
)
    requires
        app.may_run(command, now, effect, after),
    ensures
        !(crate::command::command_of(command) is Quit) && !(crate::command::command_of(command)
            is WriteQuit) ==> after.mode == Mode::Normal && after.command.len() == 0
            && after.command_cursor == 0 && after.history_index is None,
        crate::command::command_of(command) is Unknown ==> after.message == Some(
            "E492: Not an editor command: "@ + command,
        ) && after.tabs == app.tabs && effect is Nothing,
        crate::command::command_of(command) == CommandModel::Nothing ==> after.tabs == app.tabs
            && after.message == app.message && effect is Nothing,
{
    reveal(AppModel::may_run);
}

/// The views of a triage can be neither split nor resized, and a split goes in no direction but the
/// two; nothing changes then but what is said.
pub proof fn law_triage_views_stay_whole(
    app: AppModel,
    axis: ResizeAxis,
    amount: ResizeAmount,
    argument: Seq<char>,
    after: AppModel,
)
    ensures
        app.active().is_triage ==> app.split(Some(argument)) == (AppModel {
            message: Some("E474: Triage views cannot be split"@),
            ..app
        }),
        app.active().is_triage ==> app.equalized() == (AppModel {
            message: Some("E474: Triage views cannot be resized"@),
            ..app
        }),
        app.active().is_triage && app.may_resize(axis, amount, after) ==> after == (AppModel {
            message: Some("E474: Triage views cannot be resized"@),
            ..app
        }),
        !app.active().is_triage && argument != "horizontal"@ && argument != "vertical"@
            ==> app.split(Some(argument)) == (AppModel {
            message: Some("E474: Invalid split direction: "@ + argument),
            ..app
        }),
        !app.active().is_triage ==> app.split(None) == (AppModel {
            message: Some("E471: Argument required"@),
            ..app
        }),
{
    reveal(AppModel::split);
}

/// Where no other view lies in a direction, and where no view lies under the pointer, nothing
/// changes.
pub proof fn law_focus_stays_where_none_lies(
    app: AppModel,
    direction: FocusDirection,
    from: crate::layout::Rect,
    column: u16,
    row: u16,
)
    ensures
        crate::layout::area_of(app.pane_areas, app.active().active_view) is None ==> app.focus_moved(
            direction,
        ) == app,
        crate::layout::area_of(app.pane_areas, app.active().active_view) == Some(from) && (forall|m:
            int|
            0 <= m < app.pane_areas.len() && (#[trigger] app.pane_areas[m]).0
                != app.active().active_view ==> crate::moving::cells_ahead(
                from,
                app.pane_areas[m].1,
                direction,
            ) <= 0) ==> app.focus_moved(direction) == app,
{
    let active = app.active().active_view;
    crate::moving::law_focus_moves_to_nearest(app.pane_areas, active, from, direction);
    if crate::layout::area_of(app.pane_areas, active) == Some(from) && (forall|m: int|
        0 <= m < app.pane_areas.len() && (#[trigger] app.pane_areas[m]).0 != active
            ==> crate::moving::cells_ahead(from, app.pane_areas[m].1, direction) <= 0) {
        if let Some((view, _)) = crate::layout::nearest_view(
            app.pane_areas,
            active,
            from,
            direction,
        ) {
            let k = choose|k: int|
                0 <= k < app.pane_areas.len() && (#[trigger] app.pane_areas[k]).0 == view
                    && crate::moving::is_nearest(
                    app.pane_areas,
                    active,
                    from,
                    direction,
                    app.pane_areas[k].1,
                );
            assert(app.pane_areas[k].0 != active);
        }
    }
}

/// Each command does what it is named for, and closes the command line.
pub proof fn law_commands_do_what_they_name(
    app: AppModel,
    command: Seq<char>,
    now: u64,
    effect: EffectModel,
    after: AppModel,
)
    requires
        app.may_run(command, now, effect, after),
    ensures
        match crate::command::command_of(command) {
            CommandModel::TabNext => after == app.at_next_tab().command_done() && effect is Nothing,
            CommandModel::TabPrevious => after == app.at_previous_tab().command_done() && effect
                is Nothing,
            CommandModel::TabClose => after == app.tab_closed().command_done() && effect is Nothing,
            CommandModel::TabNew { name } => after == app.tab_opened(name).command_done() && effect
                is Nothing,
            CommandModel::TabSetName { name } => after == app.tab_named(name).command_done()
                && effect is Nothing,
            CommandModel::Filter { expression } => after == app.filtered(expression).command_done()
                && effect is Nothing,
            CommandModel::Sort { specification } => after == app.sorted(
                specification,
            ).command_done() && effect is Nothing,
            CommandModel::Split { direction } => after == app.split(direction).command_done()
                && effect is Nothing,
            CommandModel::Delete { count } => after == app.rows_deleted(count).command_done()
                && effect is Nothing,
            CommandModel::RefreshRate { seconds } => after == app.with_refresh_rate(
                seconds,
                now,
            ).command_done() && effect is Nothing,
            CommandModel::Refresh => effect == app.refreshed().1 && after
                == app.refreshed().0.command_done(),
            CommandModel::Triage => effect == app.triage_started().1 && after
                == app.triage_started().0.command_done(),
            CommandModel::WriteQuit { path } => match crate::command::path_of(
                path,
                app.state_path,
            ) {
                Some(to) => effect == (EffectModel::WriteState {
                    path: to,
                    state: app.saved(),
                    quit: true,
                }) && after == app,
                None => effect is Nothing && after.message == Some("E32: No file name"@)
                    && !after.should_quit || app.should_quit,
            },
            CommandModel::Resize { amount } => effect is Nothing && exists|resized: AppModel|
                #[trigger] app.may_resize_by(amount, resized) && after == resized.command_done(),
            CommandModel::BadDelete { message } => effect is Nothing && after.message == Some(
                message,
            ) && after.tabs == app.tabs,
            _ => true,
        },
{
    reveal(AppModel::may_run);
}

} // verus!
