//! What holds of every session.
use vstd::prelude::*;
use vstd::string::*;

use crate::actions;
use crate::command::{self, CommandModel};
use crate::github::{TriageModel, Workflow};
use crate::keys::{Key, KeyPress};
use crate::layout;
use crate::panes::{ResizeAmount, ResizeAxis};
use crate::query::{self, NumeralsModel};
use crate::state::{self, SavedTabModel};
use crate::text;
use crate::tui::{self, AppModel, EffectModel, LoadKind, Mode, TriageTarget};
use crate::view::{self, ListModel, TabModel};

verus! {

/// Going on to the next tab and back, or back and on again, comes to the same tab, also past the
/// last tab and before the first.
pub proof fn law_tab_navigation_returns(app: AppModel)
    requires
        app.is_sound(),
        app.tabs.len() <= usize::MAX,
    ensures
        app.at_next_tab().at_previous_tab().active_tab == app.active_tab,
        app.at_previous_tab().at_next_tab().active_tab == app.active_tab,
        app.at_next_tab().tabs == app.tabs,
        app.at_previous_tab().tabs == app.tabs,
{
    reveal(AppModel::at_next_tab);
    reveal(AppModel::at_previous_tab);
}

/// A session always keeps a tab: closing the only one leaves an empty, unnamed tab.
pub proof fn law_closing_keeps_a_tab(app: AppModel)
    requires
        app.is_sound(),
    ensures
        app.tabs.len() == 1 ==> app.tab_closed().tabs == seq![
            TabModel::start(None, Seq::empty(), None, None),
        ],
        app.tabs.len() > 1 ==> app.tab_closed().tabs == app.tabs.remove(app.active_tab as int),
        app.tab_closed().active_tab < app.tab_closed().tabs.len(),
        app.tab_closed().workflows == app.workflows,
{
    reveal(AppModel::tab_closed);
}

/// A new tab is a copy of the active one but for its name, stands behind it, and leaves all
/// others as they are.
pub proof fn law_new_tab_copies(app: AppModel, argument: Option<Seq<char>>)
    requires
        app.is_sound(),
        app.tabs.len() < usize::MAX,
    ensures
        app.tab_opened(argument).active_tab == app.active_tab + 1,
        app.tab_opened(argument).active() == (TabModel {
            name: app.tab_opened(argument).active().name,
            ..app.active()
        }),
        app.tab_opened(argument).tabs.remove(app.active_tab + 1) == app.tabs,
        app.tab_opened(argument).workflows == app.workflows,
{
    reveal(AppModel::tab_opened);
    let after = app.tab_opened(argument);
    assert(after.tabs.remove(app.active_tab + 1) =~= app.tabs);
}

/// No key quits in Normal mode.
pub proof fn law_no_key_quits_in_normal_mode(
    app: AppModel,
    press: KeyPress,
    now: u64,
    effect: EffectModel,
    after: AppModel,
)
    requires
        app.mode == Mode::Normal,
        app.may_answer(press, now, effect, after),
    ensures
        after.should_quit == app.should_quit,
        effect is Nothing,
{
    reveal(AppModel::at_next_tab);
    reveal(AppModel::at_previous_tab);
}

/// Whether two sessions have the same tabs but for the active view of the active tab.
pub open spec fn same_but_active_view(before: AppModel, after: AppModel) -> bool {
    &&& after.active_tab == before.active_tab
    &&& after.tabs.len() == before.tabs.len()
    &&& forall|i: int|
        0 <= i < before.tabs.len() && i != before.active_tab ==> #[trigger] after.tabs[i]
            == before.tabs[i]
    &&& after.active() == (TabModel { views: after.active().views, ..before.active() })
    &&& after.active().views.len() == before.active().views.len()
    &&& forall|j: int|
        0 <= j < before.active().views.len() && j != before.active().active_view
            ==> #[trigger] after.active().views[j] == before.active().views[j]
    &&& after.workflows == before.workflows
}

/// A filter changes nothing but the active view, and of that nothing but its filter and its
/// selection.
pub proof fn law_filter_stays_in_active_view(app: AppModel, argument: Option<Seq<char>>)
    requires
        app.is_sound(),
    ensures
        same_but_active_view(app, app.filtered(argument)),
        app.filtered(argument).active_view() == (ListModel {
            filter: app.filtered(argument).active_view().filter,
            filter_expression: app.filtered(argument).active_view().filter_expression,
            table_state: app.filtered(argument).active_view().table_state,
            ..app.active_view()
        }),
{
    reveal(AppModel::filtered);
    assert(app.tabs[app.active_tab as int].is_sound());
}

/// A sort changes nothing but the active view, and of that nothing but its sort and its
/// selection.
pub proof fn law_sort_stays_in_active_view(app: AppModel, argument: Option<Seq<char>>)
    requires
        app.is_sound(),
    ensures
        same_but_active_view(app, app.sorted(argument)),
        app.sorted(argument).active_view() == (ListModel {
            sort: app.sorted(argument).active_view().sort,
            sort_spec: app.sorted(argument).active_view().sort_spec,
            table_state: app.sorted(argument).active_view().table_state,
            ..app.active_view()
        }),
{
    reveal(AppModel::sorted);
    assert(app.tabs[app.active_tab as int].is_sound());
}

/// Deleting rows changes nothing but the active view, and of that nothing but its workflows and
/// its selection.
pub proof fn law_deletion_stays_in_active_view(app: AppModel, count: usize)
    requires
        app.is_sound(),
    ensures
        same_but_active_view(app, app.rows_deleted(count)),
        app.rows_deleted(count).active_view() == (ListModel {
            workflow_ids: app.rows_deleted(count).active_view().workflow_ids,
            table_state: app.rows_deleted(count).active_view().table_state,
            ..app.active_view()
        }),
{
    reveal(AppModel::rows_deleted);
    assert(app.tabs[app.active_tab as int].is_sound());
}

proof fn lemma_filter_twice(
    list: Seq<Workflow>,
    a: spec_fn(Workflow) -> bool,
    b: spec_fn(Workflow) -> bool,
    both: spec_fn(Workflow) -> bool,
)
    requires
        forall|w: Workflow| #[trigger] both(w) == (a(w) && b(w)),
    ensures
        list.filter(both) == list.filter(a).filter(b),
    decreases list.len(),
{
    reveal(Seq::filter);
    if list.len() > 0 {
        lemma_filter_twice(list.drop_last(), a, b, both);
        let rest = list.drop_last().filter(a);
        let last = list.last();
        if a(last) {
            assert(rest.push(last).drop_last() =~= rest);
        }
    }
}

proof fn lemma_ids_without(list: Seq<Workflow>, deleted: Seq<u64>)
    ensures
        state::ids_of(list.filter(|w: Workflow| !deleted.contains(w.id))) == state::ids_of(
            list,
        ).filter(|id: u64| !deleted.contains(id)),
    decreases list.len(),
{
    reveal(Seq::filter);
    let keeps = |w: Workflow| !deleted.contains(w.id);
    if list.len() == 0 {
        assert(state::ids_of(list) =~= Seq::<u64>::empty());
        assert(state::ids_of(list.filter(keeps)) =~= Seq::<u64>::empty());
    } else {
        lemma_ids_without(list.drop_last(), deleted);
        let rest = list.drop_last().filter(keeps);
        assert(state::ids_of(list).drop_last() =~= state::ids_of(list.drop_last()));
        assert(state::ids_of(list).last() == list.last().id);
        if keeps(list.last()) {
            assert(state::ids_of(rest.push(list.last())) =~= state::ids_of(rest).push(
                list.last().id,
            ));
        }
    }
}

proof fn lemma_keep_all(ids: Seq<u64>, deleted: Seq<u64>)
    requires
        forall|i: int| 0 <= i < ids.len() ==> !deleted.contains(#[trigger] ids[i]),
    ensures
        ids.filter(|id: u64| !deleted.contains(id)) == ids,
    decreases ids.len(),
{
    reveal(Seq::filter);
    if ids.len() > 0 {
        assert(!deleted.contains(ids[ids.len() - 1]));
        lemma_keep_all(ids.drop_last(), deleted);
        assert(ids.drop_last().push(ids.last()) =~= ids);
    }
}

proof fn lemma_keep_none(ids: Seq<u64>, deleted: Seq<u64>)
    requires
        forall|i: int| 0 <= i < ids.len() ==> deleted.contains(#[trigger] ids[i]),
    ensures
        ids.filter(|id: u64| !deleted.contains(id)) == Seq::<u64>::empty(),
    decreases ids.len(),
{
    reveal(Seq::filter);
    if ids.len() > 0 {
        assert(deleted.contains(ids[ids.len() - 1]));
        lemma_keep_none(ids.drop_last(), deleted);
    }
}

/// Deleting rows takes just those rows out of what is shown: as many as asked for from the
/// selected one on, or all that are left.
pub proof fn law_deletion_takes_rows_from_selected_on(app: AppModel, row: usize, count: usize)
    requires
        app.is_sound(),
        app.active_view().table_state.selected == Some(row),
        row < app.visible().len(),
        state::ids_of(app.visible()).no_duplicates(),
    ensures
        state::ids_of(app.rows_deleted(count).visible()) == state::ids_of(app.visible()).take(
            row as int,
        ) + state::ids_of(app.visible()).skip(
            if row + count < app.visible().len() {
                row + count
            } else {
                app.visible().len() as int
            },
        ),
{
    reveal(AppModel::rows_deleted);
    assert(app.tabs[app.active_tab as int].is_sound());
    let ids = state::ids_of(app.visible());
    let deleted = app.rows_from(row, count);
    let end = row + deleted.len();
    let list = app.active_view();
    let selected = query::selection(
        app.workflows,
        list.filter_expression,
        list.sort_spec,
        app.numerals,
    );
    let rest = app.without(deleted).active_view();
    let kept = |w: Workflow| !deleted.contains(w.id);
    let shown = |w: Workflow| list.workflow_ids.contains(w.id);
    let both = |w: Workflow| rest.workflow_ids.contains(w.id);
    assert forall|w: Workflow| #[trigger] both(w) == (shown(w) && kept(w)) by {
        broadcast use vstd::seq_lib::group_filter_ensures;

        let test = |id: u64| !deleted.contains(id);
        if rest.workflow_ids.contains(w.id) {
            list.workflow_ids.lemma_filter_contains_rev(test, w.id);
            let i = rest.workflow_ids.index_of(w.id);
            assert(test(rest.workflow_ids[i]));
        }
        if list.workflow_ids.contains(w.id) && !deleted.contains(w.id) {
            let i = list.workflow_ids.index_of(w.id);
            assert(test(list.workflow_ids[i]));
            assert(rest.workflow_ids.contains(list.workflow_ids[i]));
        }
    }
    lemma_filter_twice(selected, shown, kept, both);
    assert(selected.filter(shown) == app.visible());
    assert(selected.filter(both) == app.rows_deleted(count).visible());
    lemma_ids_without(app.visible(), deleted);
    let test = |id: u64| !deleted.contains(id);
    let first = ids.take(row as int);
    let middle = ids.subrange(row as int, end);
    let last = ids.skip(end);
    assert(deleted =~= middle);
    assert(ids =~= first + middle + last);
    Seq::filter_distributes_over_add(first + middle, last, test);
    Seq::filter_distributes_over_add(first, middle, test);
    assert forall|i: int| 0 <= i < middle.len() implies deleted.contains(#[trigger] middle[i]) by {
        assert(deleted[i] == middle[i]);
    }
    assert forall|i: int| 0 <= i < first.len() implies !deleted.contains(#[trigger] first[i]) by {
        if deleted.contains(first[i]) {
            let k = deleted.index_of(first[i]);
            assert(ids[row + k] == ids[i]);
        }
    }
    assert forall|i: int| 0 <= i < last.len() implies !deleted.contains(#[trigger] last[i]) by {
        if deleted.contains(last[i]) {
            let k = deleted.index_of(last[i]);
            assert(ids[row + k] == ids[end + i]);
        }
    }
    lemma_keep_all(first, deleted);
    lemma_keep_all(last, deleted);
    lemma_keep_none(middle, deleted);
    assert(first + Seq::<u64>::empty() + last =~= first + last);
}

/// Whether the filter and the sort that a view applies are what their texts read as.
pub open spec fn is_read(list: ListModel) -> bool {
    &&& list.filter_expression == view::filter_given(list.filter)
    &&& list.sort_spec == view::sort_given(list.sort)
}

/// Whether the filters and sorts of a tab are what their texts read as.
pub open spec fn tab_read(tab: TabModel) -> bool {
    forall|j: int| 0 <= j < tab.views.len() ==> is_read(#[trigger] tab.views[j])
}

/// Whether the filters and sorts of all tabs are what their texts read as.
pub open spec fn all_read(tabs: Seq<TabModel>) -> bool {
    forall|i: int| 0 <= i < tabs.len() ==> tab_read(#[trigger] tabs[i])
}

proof fn lemma_active_read(app: AppModel, tab: TabModel)
    requires
        app.is_sound(),
        all_read(app.tabs),
        tab_read(tab),
    ensures
        all_read(app.with_active(tab).tabs),
{
    let after = app.with_active(tab).tabs;
    assert forall|i: int| 0 <= i < after.len() implies tab_read(#[trigger] after[i]) by {
        if i != app.active_tab {
            assert(tab_read(app.tabs[i]));
        }
    }
}

proof fn lemma_view_read(app: AppModel, list: ListModel)
    requires
        app.is_sound(),
        all_read(app.tabs),
        is_read(list),
    ensures
        all_read(app.with_active_view(list).tabs),
        app.with_active_view(list).is_sound(),
{
    assert(tab_read(app.tabs[app.active_tab as int]));
    let tab = app.active().with_active(list);
    assert forall|j: int| 0 <= j < tab.views.len() implies is_read(#[trigger] tab.views[j]) by {
        if j != app.active().active_view {
            assert(is_read(app.active().views[j]));
        }
    }
    lemma_active_read(app, tab);
    actions::lemma_with_view_sound(app, list);
}

proof fn lemma_active_view_read(app: AppModel)
    requires
        app.is_sound(),
        all_read(app.tabs),
    ensures
        is_read(app.active_view()),
        tab_read(app.active()),
        forall|row: Option<usize>| all_read(#[trigger] app.selecting(row).tabs),
{
    assert(tab_read(app.tabs[app.active_tab as int]));
    assert(app.tabs[app.active_tab as int].is_sound());
    assert(is_read(app.active().views[app.active().active_view as int]));
    assert forall|row: Option<usize>| all_read(#[trigger] app.selecting(row).tabs) by {
        lemma_view_read(app, app.active_view().selecting(row));
    }
}

proof fn lemma_deletion_read(app: AppModel, count: usize)
    requires
        app.is_sound(),
        all_read(app.tabs),
    ensures
        all_read(app.rows_deleted(count).tabs),
{
    reveal(AppModel::rows_deleted);
    lemma_active_view_read(app);
    if let Some(row) = app.active_view().table_state.selected {
        let rest = app.without(app.rows_from(row, count));
        lemma_view_read(
            app,
            ListModel { workflow_ids: rest.active_view().workflow_ids, ..app.active_view() },
        );
        assert(rest.active_view() == (ListModel {
            workflow_ids: rest.active_view().workflow_ids,
            ..app.active_view()
        }));
        lemma_active_view_read(rest);
    }
}

proof fn lemma_filter_read(app: AppModel, argument: Option<Seq<char>>)
    requires
        app.is_sound(),
        all_read(app.tabs),
    ensures
        all_read(app.filtered(argument).tabs),
{
    reveal(AppModel::filtered);
    lemma_active_view_read(app);
    let list = if argument is None || argument->0.len() == 0 {
        ListModel { filter: None, filter_expression: None, ..app.active_view() }
    } else {
        match query::filter_of(argument->0) {
            Ok(filter) => ListModel {
                filter: argument,
                filter_expression: Some(filter),
                ..app.active_view()
            },
            Err(_) => app.active_view(),
        }
    };
    lemma_view_read(app, list);
    lemma_active_view_read(app.with_active_view(list));
}

proof fn lemma_sort_read(app: AppModel, argument: Option<Seq<char>>)
    requires
        app.is_sound(),
        all_read(app.tabs),
    ensures
        all_read(app.sorted(argument).tabs),
{
    reveal(AppModel::sorted);
    lemma_active_view_read(app);
    let list = if argument is None || argument->0.len() == 0 {
        ListModel { sort: None, sort_spec: None, ..app.active_view() }
    } else {
        match query::sort_of(argument->0) {
            Ok(sort) => ListModel { sort: argument, sort_spec: Some(sort), ..app.active_view() },
            Err(_) => app.active_view(),
        }
    };
    lemma_view_read(app, list);
    lemma_active_view_read(app.with_active_view(list));
}

proof fn lemma_tabs_read(app: AppModel, argument: Option<Seq<char>>)
    requires
        app.is_sound(),
        all_read(app.tabs),
    ensures
        all_read(app.tab_opened(argument).tabs),
        all_read(app.tab_named(argument).tabs),
        all_read(app.tab_closed().tabs),
        all_read(app.at_next_tab().tabs),
        all_read(app.at_previous_tab().tabs),
        all_read(app.split(argument).tabs),
        all_read(app.equalized().tabs),
{
    reveal(AppModel::tab_opened);
    reveal(AppModel::tab_named);
    reveal(AppModel::tab_closed);
    reveal(AppModel::at_next_tab);
    reveal(AppModel::at_previous_tab);
    reveal(AppModel::split);
    lemma_active_view_read(app);
    let named = TabModel { name: argument, ..app.active() };
    assert(tab_read(named)) by {
        assert forall|j: int| 0 <= j < named.views.len() implies is_read(
            #[trigger] named.views[j],
        ) by {
            assert(is_read(app.active().views[j]));
        }
    }
    lemma_active_read(app, named);
    let opened = app.tab_opened(argument).tabs;
    assert forall|i: int| 0 <= i < opened.len() implies tab_read(#[trigger] opened[i]) by {
        if i <= app.active_tab {
            assert(opened[i] == app.tabs[i]);
        } else if i == app.active_tab + 1 {
            assert(opened[i].views == app.active().views);
        } else {
            assert(opened[i] == app.tabs[i - 1]);
        }
    }
    let closed = app.tab_closed().tabs;
    assert forall|i: int| 0 <= i < closed.len() implies tab_read(#[trigger] closed[i]) by {
        if app.tabs.len() > 1 {
            if i < app.active_tab {
                assert(closed[i] == app.tabs[i]);
            } else {
                assert(closed[i] == app.tabs[i + 1]);
            }
        }
    }
    let horizontal = app.split_tab(layout::SplitDirection::Horizontal);
    let vertical = app.split_tab(layout::SplitDirection::Vertical);
    assert(horizontal.views == vertical.views);
    assert forall|j: int| 0 <= j < horizontal.views.len() implies is_read(
        #[trigger] horizontal.views[j],
    ) by {
        if j < app.active().views.len() {
            assert(is_read(app.active().views[j]));
        }
    }
    lemma_active_read(app, horizontal);
    lemma_active_read(app, vertical);
    lemma_layout_read(app, layout::equalized(app.active().layout));
}

proof fn lemma_layout_read(app: AppModel, layout: layout::ViewLayout)
    requires
        app.is_sound(),
        all_read(app.tabs),
    ensures
        all_read(app.with_layout(layout).tabs),
{
    lemma_active_view_read(app);
    let tab = TabModel { layout, ..app.active() };
    assert(tab_read(tab));
    lemma_active_read(app, tab);
}

proof fn lemma_resize_read(app: AppModel, axis: ResizeAxis, amount: ResizeAmount, after: AppModel)
    requires
        app.is_sound(),
        all_read(app.tabs),
        app.may_resize(axis, amount, after),
    ensures
        all_read(after.tabs),
{
    if after.tabs != app.tabs {
        lemma_layout_read(app, after.active().layout);
        assert(app.tabs[app.active_tab as int].is_sound());
        assert(after.tabs =~= app.with_layout(after.active().layout).tabs);
    }
}

proof fn lemma_window_key_read(app: AppModel, key: Key, after: AppModel)
    requires
        app.is_sound(),
        all_read(app.tabs),
        !app.pending_ctrl_w,
        app.may_answer_window_key(key, after),
    ensures
        all_read(after.tabs),
{
    lemma_tabs_read(app, None);
    lemma_active_view_read(app);
    assert(AppModel { pending_ctrl_w: false, ..app } == app);
    match key {
        Key::Char('+') => lemma_resize_read(app, ResizeAxis::Height, ResizeAmount::Delta(1), after),
        Key::Char('-') => lemma_resize_read(
            app,
            ResizeAxis::Height,
            ResizeAmount::Delta(-1i16),
            after,
        ),
        Key::Char('>') => lemma_resize_read(app, ResizeAxis::Width, ResizeAmount::Delta(1), after),
        Key::Char('<') => lemma_resize_read(
            app,
            ResizeAxis::Width,
            ResizeAmount::Delta(-1i16),
            after,
        ),
        _ => {
            if after.tabs != app.tabs && key != Key::Char('=') {
                let tab = TabModel { active_view: after.active().active_view, ..app.active() };
                assert(tab_read(tab));
                lemma_active_read(app, tab);
                assert(app.tabs[app.active_tab as int].is_sound());
                assert(after.tabs =~= app.with_active(tab).tabs);
            }
        },
    }
}

proof fn lemma_run_read(
    app: AppModel,
    command: Seq<char>,
    now: u64,
    effect: EffectModel,
    after: AppModel,
)
    requires
        app.is_sound(),
        all_read(app.tabs),
        app.may_run(command, now, effect, after),
    ensures
        all_read(after.tabs),
{
    reveal(AppModel::may_run);
    match command::command_of(command) {
        CommandModel::Refresh => {
            reveal(AppModel::refreshed);
        },
        CommandModel::Triage => {
            reveal(AppModel::triage_started);
        },
        CommandModel::Resize { amount } => {
            reveal(AppModel::may_resize_by);
            let resized = choose|resized: AppModel|
                #![trigger app.may_resize_by(amount, resized)]
                app.may_resize_by(amount, resized) && after == resized.command_done();
            lemma_tabs_read(app, None);
            if amount is Some && amount->0.len() > 0 && amount->0 != "equal"@ {
                if let Ok((axis, by)) = AppModel::resize_request(amount->0) {
                    lemma_resize_read(app, axis, by, resized);
                }
            }
        },
        CommandModel::Delete { count } => {
            lemma_deletion_read(app, count);
        },
        CommandModel::Filter { expression } => {
            lemma_filter_read(app, expression);
        },
        CommandModel::Sort { specification } => {
            lemma_sort_read(app, specification);
        },
        CommandModel::Split { direction } => {
            lemma_tabs_read(app, direction);
        },
        CommandModel::TabNew { name } => {
            lemma_tabs_read(app, name);
        },
        CommandModel::TabSetName { name } => {
            lemma_tabs_read(app, name);
        },
        CommandModel::RefreshRate { .. } => {
            reveal(AppModel::with_refresh_rate);
        },
        _ => {
            lemma_tabs_read(app, None);
        },
    }
}

/// Whatever is typed, the filter and the sort that each view applies stay what their texts read
/// as.
pub proof fn law_keys_keep_filters_and_sorts_read(
    app: AppModel,
    press: KeyPress,
    now: u64,
    effect: EffectModel,
    after: AppModel,
)
    requires
        app.is_sound(),
        all_read(app.tabs),
        app.may_answer(press, now, effect, after),
    ensures
        all_read(after.tabs),
{
    lemma_active_view_read(app);
    lemma_tabs_read(app, None);
    if press.control && (press.code == Key::BackTab || press.code == Key::Tab) {
    } else if app.mode == Mode::Command {
        if press.code == Key::Enter {
            let command = text::trimmed(app.command);
            if !(command.len() > 0 && app.command_history_path is Some) {
                lemma_run_read(app.recorded(), command, now, effect, after);
            }
        }
    } else if app.pending_ctrl_w {
        lemma_window_key_read(AppModel { pending_ctrl_w: false, ..app }, press.code, after);
    } else {
        assert(all_read(app.navigated(press).tabs));
    }
}

/// The same holds of a command that is run when the history has been saved.
pub proof fn law_recorded_commands_keep_filters_and_sorts_read(
    app: AppModel,
    error: Option<Seq<char>>,
    now: u64,
    effect: EffectModel,
    after: AppModel,
)
    requires
        app.is_sound(),
        all_read(app.tabs),
        app.may_go_on(error, now, effect, after),
    ensures
        all_read(after.tabs),
{
    let command = text::trimmed(app.command);
    match error {
        Some(error) => {
            let said = app.saying("E886: Could not save command history: "@ + error);
            lemma_run_read(said, command, now, effect, after);
        },
        None => {
            lemma_run_read(app, command, now, effect, after);
        },
    }
}

proof fn lemma_repair_read(app: AppModel, wanted: Option<Seq<Seq<Option<u64>>>>)
    requires
        all_read(app.tabs),
    ensures
        all_read(app.repaired(wanted).tabs),
{
    let after = app.repaired(wanted).tabs;
    assert forall|i: int| 0 <= i < after.len() implies tab_read(#[trigger] after[i]) by {
        assert(tab_read(app.tabs[i]));
        assert forall|j: int| 0 <= j < after[i].views.len() implies is_read(
            #[trigger] after[i].views[j],
        ) by {
            assert(is_read(app.tabs[i].views[j]));
        }
    }
}

/// Whatever is loaded, the filter and the sort that each view applies stay what their texts read
/// as; those of a saved session are read from its file.
pub proof fn law_loads_keep_filters_and_sorts_read(
    app: AppModel,
    workflows: Seq<Workflow>,
    workflow: Workflow,
)
    requires
        app.is_sound(),
        all_read(app.tabs),
    ensures
        all_read(app.discovered(workflows).tabs),
        all_read(app.status_loaded(workflow).tabs),
{
    let middle = AppModel {
        loading_status_ids: app.status_loaded(workflow).loading_status_ids,
        workflows: app.status_loaded(workflow).workflows,
        loaded_status_count: app.status_loaded(workflow).loaded_status_count,
        ..app
    };
    lemma_repair_read(middle, Some(app.selected_ids()));
    if let Some(pending) = app.pending_load {
        let loaded = app.loaded_workflows(workflows);
        let refreshes = pending.kind == LoadKind::Refresh;
        let opened = app.opened_tabs(loaded);
        assert forall|i: int| 0 <= i < opened.len() implies tab_read(#[trigger] opened[i]) by {
            assert forall|j: int| 0 <= j < opened[i].views.len() implies is_read(
                #[trigger] opened[i].views[j],
            ) by {}
        }
        let tabs = if refreshes {
            app.tabs
        } else {
            opened
        };
        let found = AppModel {
            repository: pending.repository,
            workflows: loaded,
            loading_status_ids: app.unknown_ids(loaded),
            loaded_status_count: 0,
            state_path: app.path_then(),
            tabs,
            active_tab: if refreshes {
                app.active_tab
            } else {
                tui::within(pending.active_tab, tabs.len())
            },
            ..app
        };
        lemma_repair_read(
            found,
            if refreshes {
                Some(app.selected_ids())
            } else {
                None
            },
        );
    }
}

/// Whatever comes of a triage, the filter and the sort that each view applies stay what their
/// texts read as.
pub proof fn law_triage_keeps_filters_and_sorts_read(
    app: AppModel,
    result: Result<Seq<TriageModel>, Seq<char>>,
)
    requires
        app.is_sound(),
        all_read(app.tabs),
    ensures
        all_read(app.triage_ended(result).tabs),
{
    let after = app.triage_ended(result).tabs;
    if let Ok(results) = result {
        let ids = actions::result_ids(results);
        match app.triage_target {
            Some(TriageTarget::RefreshTab { index }) => {
                if index < app.tabs.len() && app.tabs[index as int].is_triage {
                    assert forall|i: int| 0 <= i < after.len() implies tab_read(
                        #[trigger] after[i],
                    ) by {
                        assert(tab_read(app.tabs[i]));
                        assert(app.tabs[i].is_sound());
                        assert forall|j: int| 0 <= j < after[i].views.len() implies is_read(
                            #[trigger] after[i].views[j],
                        ) by {
                            assert(is_read(app.tabs[i].views[j]));
                        }
                    }
                }
            },
            Some(TriageTarget::NewTab { insert_after }) => {
                let index = if insert_after < app.tabs.len() {
                    insert_after + 1
                } else {
                    app.tabs.len() as int
                };
                assert forall|i: int| 0 <= i < after.len() implies tab_read(
                    #[trigger] after[i],
                ) by {
                    if i < index {
                        assert(after[i] == app.tabs[i]);
                    } else if i > index {
                        assert(after[i] == app.tabs[i - 1]);
                    } else {
                        assert(after[i] == AppModel::triage_tab(ids));
                    }
                }
            },
            None => {},
        }
    }
}

} // verus!
