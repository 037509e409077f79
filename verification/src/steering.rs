//! What keys and commands make a session do.
use vstd::prelude::*;
use vstd::string::*;

use crate::command::{self, CommandModel};
use crate::keys::{Key, KeyPress};
use crate::layout::{self, FocusDirection, SplitDirection, ViewLayout};
use crate::panes::{ResizeAmount, ResizeAxis};
use crate::text::{self, CharClass};
use crate::tui::{AppModel, EffectModel, LoadKind, Mode};

verus! {

/// The row that is selected in the active view, or the first one.
pub open spec fn row_now(app: AppModel) -> int {
    match app.tabs[app.active_tab as int].views[app.tabs[app.active_tab as int].active_view as int].table_state.selected {
        Some(row) => row as int,
        None => 0,
    }
}

/// The lesser of two numbers.
pub open spec fn lesser(a: int, b: int) -> int {
    if a < b {
        a
    } else {
        b
    }
}

/// The greater of two numbers.
pub open spec fn greater(a: int, b: int) -> int {
    if a > b {
        a
    } else {
        b
    }
}

/// The row that a key moves the selection to in Normal mode, among a number of rows, where it
/// moves it.
pub open spec fn row_behind(press: KeyPress, row: int, count: int, pending_g: bool) -> Option<int> {
    match press.code {
        Key::Down | Key::Char('j') => Some(lesser(row + 1, count - 1)),
        Key::Up | Key::Char('k') => Some(greater(row - 1, 0)),
        Key::PageDown => Some(lesser(row + 10, count - 1)),
        Key::PageUp => Some(greater(row - 10, 0)),
        Key::Char('d') => if press.control {
            Some(lesser(row + 10, count - 1))
        } else {
            None
        },
        Key::Char('u') => if press.control {
            Some(greater(row - 10, 0))
        } else {
            None
        },
        Key::Home => Some(0),
        Key::End | Key::Char('G') => Some(count - 1),
        Key::Char('g') => if pending_g {
            Some(0)
        } else {
            None
        },
        _ => None,
    }
}

/// In Normal mode `j`, `k`, the arrows and the paging keys move the selection by one row or by
/// ten, `gg`, Home, `G` and End to the ends, and never beyond them. Other keys leave it where it
/// is. No workflow, filter or sort changes.
#[verifier::spinoff_prover]
#[verifier::rlimit(50)]
pub proof fn law_keys_move_selection(
    app: AppModel,
    press: KeyPress,
    now: u64,
    effect: EffectModel,
    after: AppModel,
)
    requires
        app.is_sound(),
        app.mode == Mode::Normal,
        !app.pending_ctrl_w,
        !(press.control && (press.code == Key::Tab || press.code == Key::BackTab)),
        0 < app.visible().len() <= usize::MAX,
        app.may_answer(press, now, effect, after),
    ensures
        effect is Nothing,
        after.workflows == app.workflows,
        after.active_tab == app.active_tab,
        after.tabs.len() == app.tabs.len(),
        after.visible() == app.visible(),
        match row_behind(press, row_now(app), app.visible().len() as int, app.pending_g) {
            Some(row) => after.active_view().table_state.selected == Some(row as usize) && 0 <= row
                <= usize::MAX,
            None => after.active_view().table_state.selected
                == app.active_view().table_state.selected,
        },
        forall|i: int|
            0 <= i < app.tabs.len() && i != app.active_tab ==> #[trigger] after.tabs[i]
                == app.tabs[i],
{
    assert(app.tabs[app.active_tab as int].is_sound());
    assert(app.selecting(Some(0)).visible() == app.visible());
}

/// In a view without rows no key selects one.
pub proof fn law_empty_view_selects_none(
    app: AppModel,
    press: KeyPress,
    now: u64,
    effect: EffectModel,
    after: AppModel,
)
    requires
        app.mode == Mode::Normal,
        !app.pending_ctrl_w,
        !(press.control && (press.code == Key::Tab || press.code == Key::BackTab)),
        app.visible().len() == 0,
        app.may_answer(press, now, effect, after),
    ensures
        effect is Nothing,
        after.tabs == app.tabs,
        after.active_tab == app.active_tab,
        after.workflows == app.workflows,
{
}

/// A first `g` waits for the second, and any other key forgets it; Ctrl-W waits for the key behind
/// it.
pub proof fn law_keys_wait_for_the_next(
    app: AppModel,
    press: KeyPress,
    now: u64,
    effect: EffectModel,
    after: AppModel,
)
    requires
        app.is_sound(),
        app.mode == Mode::Normal,
        !app.pending_ctrl_w,
        !(press.control && (press.code == Key::Tab || press.code == Key::BackTab)),
        app.may_answer(press, now, effect, after),
    ensures
        press.code == Key::Char('g') ==> after.pending_g == !app.pending_g,
        press.code != Key::Char('g') && !(press.control && press.code == Key::Char('w'))
            ==> !after.pending_g,
        after.pending_ctrl_w == (press.control && press.code == Key::Char('w')),
        after.mode == (if press.code == Key::Char(':') {
            Mode::Command
        } else {
            Mode::Normal
        }),
        after.should_quit == app.should_quit,
{
}

/// Whether a key stands for a direction behind Ctrl-W.
pub open spec fn points(key: Key, direction: FocusDirection) -> bool {
    match direction {
        FocusDirection::Left => key == Key::Left || key == Key::Char('h'),
        FocusDirection::Down => key == Key::Down || key == Key::Char('j'),
        FocusDirection::Up => key == Key::Up || key == Key::Char('k'),
        FocusDirection::Right => key == Key::Right || key == Key::Char('l'),
    }
}

/// Behind Ctrl-W a key that stands for a direction moves the focus in it; plus and minus change
/// the height of the active view by one row, the angle brackets its width by one column, and an
/// equals sign makes the views equal. Ctrl-W is forgotten then.
pub proof fn law_window_keys(
    app: AppModel,
    press: KeyPress,
    direction: FocusDirection,
    now: u64,
    effect: EffectModel,
    after: AppModel,
)
    requires
        app.is_sound(),
        app.mode == Mode::Normal,
        app.pending_ctrl_w,
        !(press.control && (press.code == Key::Tab || press.code == Key::BackTab)),
        app.may_answer(press, now, effect, after),
    ensures
        ({
            let base = AppModel { pending_ctrl_w: false, ..app };
            &&& points(press.code, direction) ==> after == base.focus_moved(direction)
            &&& press.code == Key::Char('+') ==> base.may_resize(
                ResizeAxis::Height,
                ResizeAmount::Delta(1),
                after,
            )
            &&& press.code == Key::Char('-') ==> base.may_resize(
                ResizeAxis::Height,
                ResizeAmount::Delta(-1i16),
                after,
            )
            &&& press.code == Key::Char('>') ==> base.may_resize(
                ResizeAxis::Width,
                ResizeAmount::Delta(1),
                after,
            )
            &&& press.code == Key::Char('<') ==> base.may_resize(
                ResizeAxis::Width,
                ResizeAmount::Delta(-1i16),
                after,
            )
            &&& press.code == Key::Char('=') ==> after == base.equalized()
            &&& !(points(press.code, FocusDirection::Left) || points(
                press.code,
                FocusDirection::Down,
            ) || points(press.code, FocusDirection::Up) || points(press.code, FocusDirection::Right)
                || press.code == Key::Char('+') || press.code == Key::Char('-') || press.code
                == Key::Char('>') || press.code == Key::Char('<') || press.code == Key::Char('='))
                ==> after == base
        }),
        !after.pending_ctrl_w,
{
}

/// The next tab is the one behind the active tab and the previous one that before it; behind the
/// last comes the first. Nothing but the active tab and what is said changes.
pub proof fn law_tab_keys(
    app: AppModel,
    press: KeyPress,
    now: u64,
    effect: EffectModel,
    after: AppModel,
)
    requires
        app.is_sound(),
        app.tabs.len() <= usize::MAX,
        press.control,
        press.code == Key::Tab || press.code == Key::BackTab,
        app.may_answer(press, now, effect, after),
    ensures
        ({
            let count = app.tabs.len() as int;
            let place = if press.code == Key::Tab && !press.shift {
                app.active_tab + 1
            } else {
                app.active_tab - 1
            };
            after.active_tab == (if place == count {
                0
            } else if place < 0 {
                count - 1
            } else {
                place
            })
        }),
        after == (AppModel { active_tab: after.active_tab, message: after.message, ..app }),
        effect is Nothing,
{
    reveal(AppModel::at_next_tab);
    reveal(AppModel::at_previous_tab);
}

/// The commands that go from tab to tab do what the keys do.
pub proof fn law_tab_commands(app: AppModel)
    requires
        app.is_sound(),
        app.tabs.len() <= usize::MAX,
    ensures
        app.at_next_tab().active_tab == (if app.active_tab + 1 == app.tabs.len() {
            0
        } else {
            app.active_tab + 1
        }),
        app.at_previous_tab().active_tab == (if app.active_tab == 0 {
            app.tabs.len() - 1
        } else {
            app.active_tab - 1
        }),
        app.at_next_tab().tabs == app.tabs,
        app.at_previous_tab().tabs == app.tabs,
{
    reveal(AppModel::at_next_tab);
    reveal(AppModel::at_previous_tab);
}

/// A new tab comes right behind the active one and shows what that shows, under the name given;
/// it becomes the active one. All other tabs stay.
pub proof fn law_new_tab_comes_behind(app: AppModel, argument: Option<Seq<char>>)
    requires
        app.is_sound(),
        app.tabs.len() < usize::MAX,
    ensures
        ({
            let after = app.tab_opened(argument);
            &&& after.active_tab == app.active_tab + 1
            &&& after.tabs.len() == app.tabs.len() + 1
            &&& after.tabs.remove(after.active_tab as int) == app.tabs
            &&& after.active().views == app.active().views
            &&& after.active().layout == app.active().layout
            &&& after.active().active_view == app.active().active_view
            &&& after.active().is_triage == app.active().is_triage
            &&& after.active().name == (match argument {
                Some(name) => if name.len() > 0 {
                    Some(name)
                } else {
                    None
                },
                None => None,
            })
            &&& after.workflows == app.workflows
        }),
{
    reveal(AppModel::tab_opened);
    let after = app.tab_opened(argument);
    assert(after.tabs.remove(after.active_tab as int) =~= app.tabs);
}

/// Closing takes the active tab away and no other. The tab that was behind it becomes active, or
/// the last one; the only tab is emptied.
pub proof fn law_closing_takes_active_tab(app: AppModel)
    requires
        app.is_sound(),
        app.tabs.len() <= usize::MAX,
    ensures
        ({
            let after = app.tab_closed();
            if app.tabs.len() == 1 {
                &&& after.tabs.len() == 1
                &&& after.active_tab == app.active_tab
                &&& after.visible().len() == 0
                &&& after.active().name is None
                &&& !after.active().is_triage
                &&& !after.should_quit || app.should_quit
            } else {
                &&& after.tabs == app.tabs.remove(app.active_tab as int)
                &&& after.active_tab == lesser(app.active_tab as int, app.tabs.len() - 2)
                &&& !after.should_quit || app.should_quit
            }
        }),
{
    reveal(AppModel::tab_closed);
    let after = app.tab_closed();
    if app.tabs.len() == 1 {
        assert(app.active_tab == 0);
        let view = after.active_view();
        assert(view.workflow_ids.len() == 0);
        let selected = crate::query::selection(
            after.workflows,
            view.filter_expression,
            view.sort_spec,
            after.numerals,
        );
        let test = |workflow: crate::github::Workflow| view.workflow_ids.contains(workflow.id);
        lemma_none_pass(selected, test);
    }
}

proof fn lemma_none_pass(
    list: Seq<crate::github::Workflow>,
    test: spec_fn(crate::github::Workflow) -> bool,
)
    requires
        forall|workflow: crate::github::Workflow| !(#[trigger] test(workflow)),
    ensures
        list.filter(test).len() == 0,
    decreases list.len(),
{
    reveal(Seq::filter);
    if list.len() > 0 {
        lemma_none_pass(list.drop_last(), test);
    }
}

/// Naming a tab gives the active tab that name, and changes no other.
pub proof fn law_naming_names_active_tab(app: AppModel, name: Seq<char>)
    requires
        app.is_sound(),
        name.len() > 0,
    ensures
        ({
            let after = app.tab_named(Some(name));
            &&& after.active().name == Some(name)
            &&& after.active().views == app.active().views
            &&& after.active_tab == app.active_tab
            &&& after.tabs.len() == app.tabs.len()
            &&& forall|i: int|
                0 <= i < app.tabs.len() && i != app.active_tab ==> #[trigger] after.tabs[i]
                    == app.tabs[i]
        }),
{
    reveal(AppModel::tab_named);
}

/// Whether a text is a command name: it is not empty, holds no blank and does not start with
/// the letter that deletes.
pub open spec fn is_name(t: Seq<char>) -> bool {
    &&& t.len() > 0
    &&& t[0] != 'd'
    &&& forall|k: int| 0 <= k < t.len() ==> !text::is_space(#[trigger] t[k])
}

proof fn lemma_command_words(name: Seq<char>, argument: Seq<char>)
    requires
        is_name(name),
    ensures
        command::words_of_command(name + " "@ + argument) == (name, Some(text::trimmed(argument))),
        command::words_of_command(name) == (name, None::<Seq<char>>),
        command::delete_of(name + " "@ + argument) is None,
        command::delete_of(name) is None,
{
    reveal_strlit(" ");
    reveal_strlit("d");
    let all = name + " "@ + argument;
    let class = CharClass::Space;
    text::lemma_class_from(all, class, 0);
    text::lemma_class_from(name, class, 0);
    let at = text::class_from(all, class, 0);
    assert(all[name.len() as int] == ' ');
    assert(text::is_space(' '));
    if at < name.len() {
        assert(all[at] == name[at]);
    }
    if at > name.len() {
        assert(!class.has(all[name.len() as int]));
    }
    assert(all.take(name.len() as int) =~= name);
    assert(all.skip(name.len() as int + 1) =~= argument);
    let end = text::class_from(name, class, 0);
    if end < name.len() {
        assert(!text::is_space(name[end]));
    }
    assert(all[0] == name[0]);
    if text::begins_with(all, "d"@) {
        assert(all.subrange(0, 1)[0] == 'd');
    }
    if text::begins_with(name, "d"@) {
        assert(name.subrange(0, 1)[0] == 'd');
    }
}

/// A command is known by its name, and what follows it without the blanks around it is its
/// argument.
pub proof fn law_commands_take_arguments(argument: Seq<char>)
    ensures
        ({
            let given = Some(text::trimmed(argument));
            &&& command::command_of("w "@ + argument) == (CommandModel::Write { path: given })
            &&& command::command_of("wq "@ + argument) == (CommandModel::WriteQuit { path: given })
            &&& command::command_of("e "@ + argument) == (CommandModel::Edit { path: given })
            &&& command::command_of("filter "@ + argument) == (CommandModel::Filter {
                expression: given,
            })
            &&& command::command_of("sort "@ + argument) == (CommandModel::Sort {
                specification: given,
            })
            &&& command::command_of("split "@ + argument) == (CommandModel::Split {
                direction: given,
            })
            &&& command::command_of("resize "@ + argument) == (CommandModel::Resize {
                amount: given,
            })
            &&& command::command_of("tabnew "@ + argument) == (CommandModel::TabNew { name: given })
            &&& command::command_of("tabsetname "@ + argument) == (CommandModel::TabSetName {
                name: given,
            })
            &&& command::command_of("refresh-rate "@ + argument) == (CommandModel::RefreshRate {
                seconds: given,
            })
        }),
{
    reveal(command::command_of);
    lemma_names();
    lemma_command_words("w"@, argument);
    lemma_command_words("wq"@, argument);
    lemma_command_words("e"@, argument);
    lemma_command_words("filter"@, argument);
    lemma_command_words("sort"@, argument);
    lemma_command_words("split"@, argument);
    lemma_command_words("resize"@, argument);
    lemma_command_words("tabnew"@, argument);
    lemma_command_words("tabsetname"@, argument);
    lemma_command_words("refresh-rate"@, argument);
    assert("w "@ + argument =~= "w"@ + " "@ + argument);
    assert("wq "@ + argument =~= "wq"@ + " "@ + argument);
    assert("e "@ + argument =~= "e"@ + " "@ + argument);
    assert("filter "@ + argument =~= "filter"@ + " "@ + argument);
    assert("sort "@ + argument =~= "sort"@ + " "@ + argument);
    assert("split "@ + argument =~= "split"@ + " "@ + argument);
    assert("resize "@ + argument =~= "resize"@ + " "@ + argument);
    assert("tabnew "@ + argument =~= "tabnew"@ + " "@ + argument);
    assert("tabsetname "@ + argument =~= "tabsetname"@ + " "@ + argument);
    assert("refresh-rate "@ + argument =~= "refresh-rate"@ + " "@ + argument);
}

proof fn lemma_names()
    ensures
        "w "@ == "w"@ + " "@ && "wq "@ == "wq"@ + " "@ && "e "@ == "e"@ + " "@,
        "filter "@ == "filter"@ + " "@ && "sort "@ == "sort"@ + " "@,
        "split "@ == "split"@ + " "@ && "resize "@ == "resize"@ + " "@,
        "tabnew "@ == "tabnew"@ + " "@ && "tabsetname "@ == "tabsetname"@ + " "@,
        "refresh-rate "@ == "refresh-rate"@ + " "@,
        is_name("w"@) && is_name("wq"@) && is_name("e"@) && is_name("filter"@) && is_name("sort"@),
        is_name("split"@) && is_name("resize"@) && is_name("tabnew"@) && is_name("tabsetname"@),
        is_name("refresh-rate"@),
        "w"@.len() == 1 && "wq"@.len() == 2 && "e"@.len() == 1 && "filter"@.len() == 6,
        "sort"@.len() == 4 && "split"@.len() == 5 && "resize"@.len() == 6 && "tabnew"@.len() == 6,
        "tabsetname"@.len() == 10 && "refresh-rate"@.len() == 12,
        "w"@[0] == 'w' && "e"@[0] == 'e' && "filter"@[0] == 'f' && "resize"@[0] == 'r',
        "tabnew"@[0] == 't',
{
    reveal_strlit(" ");
    reveal_strlit("w");
    reveal_strlit("w ");
    reveal_strlit("wq");
    reveal_strlit("wq ");
    reveal_strlit("e");
    reveal_strlit("e ");
    reveal_strlit("filter");
    reveal_strlit("filter ");
    reveal_strlit("sort");
    reveal_strlit("sort ");
    reveal_strlit("split");
    reveal_strlit("split ");
    reveal_strlit("resize");
    reveal_strlit("resize ");
    reveal_strlit("tabnew");
    reveal_strlit("tabnew ");
    reveal_strlit("tabsetname");
    reveal_strlit("tabsetname ");
    reveal_strlit("refresh-rate");
    reveal_strlit("refresh-rate ");
    assert("w "@ =~= "w"@ + " "@);
    assert("wq "@ =~= "wq"@ + " "@);
    assert("e "@ =~= "e"@ + " "@);
    assert("filter "@ =~= "filter"@ + " "@);
    assert("sort "@ =~= "sort"@ + " "@);
    assert("split "@ =~= "split"@ + " "@);
    assert("resize "@ =~= "resize"@ + " "@);
    assert("tabnew "@ =~= "tabnew"@ + " "@);
    assert("tabsetname "@ =~= "tabsetname"@ + " "@);
    assert("refresh-rate "@ =~= "refresh-rate"@ + " "@);
}

/// A count behind the letter that deletes is the number of rows that are deleted; zero is no
/// count.
pub proof fn law_deletion_counts(n: nat)
    requires
        n <= usize::MAX,
    ensures
        command::delete_of("d"@ + text::decimal(n)) == (if n == 0 {
            Some(Err::<usize, Seq<char>>("E16: Invalid range"@))
        } else {
            Some(Ok::<usize, Seq<char>>(n as usize))
        }),
        n > 0 ==> command::command_of("d"@ + text::decimal(n)) == (CommandModel::Delete {
            count: n as usize,
        }),
{
    reveal(command::command_of);
    reveal_strlit("d");
    text::lemma_decimal(n);
    let all = "d"@ + text::decimal(n);
    assert(all.subrange(0, 1) =~= "d"@);
    assert(all.skip(1) =~= text::decimal(n));
}

/// A session ends by a command exactly where the command is to quit; one that writes first ends
/// it only when the file is written.
pub proof fn law_only_quitting_quits(
    app: AppModel,
    command: Seq<char>,
    now: u64,
    effect: EffectModel,
    after: AppModel,
)
    requires
        app.is_sound(),
        !app.should_quit,
        app.may_run(command, now, effect, after),
    ensures
        after.should_quit == (command::command_of(command) is Quit),
        (effect matches EffectModel::WriteState { quit, .. } && quit) ==> command::command_of(
            command,
        ) is WriteQuit,
{
    reveal(AppModel::may_run);
    reveal(AppModel::rows_deleted);
    reveal(AppModel::with_refresh_rate);
    reveal(AppModel::filtered);
    reveal(AppModel::sorted);
    reveal(AppModel::split);
    reveal(AppModel::tab_opened);
    reveal(AppModel::tab_named);
    reveal(AppModel::at_next_tab);
    reveal(AppModel::at_previous_tab);
    reveal(AppModel::tab_closed);
    reveal(AppModel::refreshed);
    reveal(AppModel::triage_started);
    reveal(AppModel::may_resize_by);
}

/// A write goes to the path that is given, and to the one that is remembered where none is given;
/// what is written is the session. Without either nothing is written.
pub proof fn law_writes_go_to_path(
    app: AppModel,
    command: Seq<char>,
    now: u64,
    effect: EffectModel,
    after: AppModel,
)
    requires
        app.may_run(command, now, effect, after),
    ensures
        (command::command_of(command) matches CommandModel::Write { path } && path matches Some(
            given,
        ) && given.len() > 0) ==> {
            effect matches EffectModel::WriteState { path, state, quit } && Some(path) == (
            command::command_of(command)->Write_path) && state == app.saved() && !quit
        },
        (command::command_of(command) matches CommandModel::Write { path } && path is None)
            ==> match app.state_path {
            Some(remembered) => effect matches EffectModel::WriteState { path, state, quit } && path
                == remembered && state == app.saved() && !quit,
            None => effect is Nothing && after.message == Some("E32: No file name"@),
        },
        (command::command_of(command) matches CommandModel::Edit { path } && path matches Some(
            given,
        ) && given.len() > 0) ==> effect == (EffectModel::ReadState {
            path: (command::command_of(command)->Edit_path)->0,
        }),
{
    reveal(AppModel::may_run);
}

/// A refresh is due when as many seconds have passed since the last load as the interval has, and
/// not before.
pub proof fn law_refresh_is_due_after_interval(
    app: AppModel,
    error: Option<Seq<char>>,
    ended: u64,
    now: u64,
)
    requires
        app.pending_load is Some,
        !app.triage_running,
    ensures
        (app.load_ended(error, ended).due_refresh(now).1 is Load) == (now >= ended
            + app.refresh_interval * 1000),
        app.load_ended(error, ended).due_refresh(now).1 is Load
            || app.load_ended(error, ended).due_refresh(now).1 is Nothing,
{
    assert(ended + app.refresh_interval * 1000 <= u128::MAX) by (nonlinear_arith)
        requires
            ended <= u64::MAX,
            app.refresh_interval <= u64::MAX,
    ;
}

/// A refresh rate that is given in digits becomes the interval, where it is not zero, and counts
/// from then on.
pub proof fn law_refresh_rate_is_set(app: AppModel, n: nat, now: u64)
    requires
        n <= u64::MAX,
    ensures
        n > 0 ==> app.with_refresh_rate(Some(text::decimal(n)), now).refresh_interval == n,
        n > 0 ==> app.with_refresh_rate(Some(text::decimal(n)), now).next_refresh == now + n * 1000,
        n == 0 ==> app.with_refresh_rate(Some(text::decimal(n)), now).refresh_interval
            == app.refresh_interval,
        n == 0 ==> app.with_refresh_rate(Some(text::decimal(n)), now).next_refresh
            == app.next_refresh,
{
    reveal(AppModel::with_refresh_rate);
    text::lemma_decimal(n);
    assert(text::is_digit(text::decimal(n)[0]));
}

/// A refresh asks for the workflows that are shown; an interval refresh is one, and does nothing
/// while a load or a triage is under way.
pub proof fn law_refresh_asks_for_shown(app: AppModel, now: u64)
    ensures
        app.pending_load is Some || app.triage_running ==> app.due_refresh(now) == (
            app,
            EffectModel::Nothing,
        ),
        (app.due_refresh(now).1 matches EffectModel::Load { repository, wanted } ==> repository
            == app.repository && wanted == Some(
            app.workflows.map_values(|workflow: crate::github::Workflow| workflow.id),
        )),
        (app.due_refresh(now).1 is Load ==> (app.due_refresh(now).0.pending_load matches Some(
            pending,
        ) && pending.kind == LoadKind::Refresh)),
{
    assert(crate::state::ids_of(app.workflows) =~= app.workflows.map_values(
        |workflow: crate::github::Workflow| workflow.id,
    ));
}

/// The layout around a view once it is split: the place of the view holds both halves.
pub open spec fn splits_place(
    before: ViewLayout,
    after: ViewLayout,
    target: usize,
    new_index: usize,
    direction: SplitDirection,
) -> bool
    decreases before,
{
    match before {
        ViewLayout::Pane { index } => index == target && (after matches ViewLayout::Split {
            direction: along,
            ratio,
            first,
            second,
        } && along == direction && ratio == 500 && *first == (ViewLayout::Pane { index: target })
            && *second == (ViewLayout::Pane { index: new_index })),
        ViewLayout::Split { direction: along, ratio, first, second } => after matches ViewLayout::Split {
            direction: other_along,
            ratio: other_ratio,
            first: other_first,
            second: other_second,
        } && along == other_along && ratio == other_ratio && ((splits_place(
            *first,
            *other_first,
            target,
            new_index,
            direction,
        ) && *second == *other_second) || (*first == *other_first && splits_place(
            *second,
            *other_second,
            target,
            new_index,
            direction,
        ))),
    }
}

proof fn lemma_splits_place(
    layout: ViewLayout,
    target: usize,
    new_index: usize,
    direction: SplitDirection,
)
    ensures
        layout::with_leaf_split(layout, target, new_index, direction) matches Some(after)
            ==> splits_place(layout, after, target, new_index, direction),
    decreases layout,
{
    if let ViewLayout::Split { first, second, .. } = layout {
        lemma_splits_place(*first, target, new_index, direction);
        lemma_splits_place(*second, target, new_index, direction);
    }
}

/// Splitting puts a copy of the active view below it or to its right, each with half of its place,
/// and makes the copy active. All other views and tabs stay.
pub proof fn law_split_copies_active_view(app: AppModel, horizontal: bool)
    requires
        app.is_sound(),
        !app.active().is_triage,
        app.active().views.len() < usize::MAX,
        layout::leaves(app.active().layout).contains(app.active().active_view),
    ensures
        ({
            let after = app.split(
                Some(
                    if horizontal {
                        "horizontal"@
                    } else {
                        "vertical"@
                    },
                ),
            );
            let count = app.active().views.len();
            &&& after.active().views == app.active().views.push(app.active_view())
            &&& after.active().active_view == count
            &&& after.active_tab == app.active_tab
            &&& splits_place(
                app.active().layout,
                after.active().layout,
                app.active().active_view,
                count as usize,
                if horizontal {
                    SplitDirection::Horizontal
                } else {
                    SplitDirection::Vertical
                },
            )
            &&& forall|i: int|
                0 <= i < app.tabs.len() && i != app.active_tab ==> #[trigger] after.tabs[i]
                    == app.tabs[i]
        }),
{
    reveal(AppModel::split);
    reveal_strlit("horizontal");
    reveal_strlit("vertical");
    assert("horizontal"@[0] == 'h' && "vertical"@[0] == 'v');
    let direction = if horizontal {
        SplitDirection::Horizontal
    } else {
        SplitDirection::Vertical
    };
    let tab = app.active();
    layout::law_split_adds_view(tab.layout, tab.active_view, tab.views.len() as usize, direction);
    lemma_splits_place(tab.layout, tab.active_view, tab.views.len() as usize, direction);
}

/// A count that is greater than any number of rows is refused.
pub proof fn law_great_counts_are_refused(n: nat)
    requires
        n > usize::MAX,
    ensures
        command::delete_of("d"@ + text::decimal(n)) == Some(
            Err::<usize, Seq<char>>("E488: Trailing characters: "@ + text::decimal(n)),
        ),
{
    reveal_strlit("d");
    text::lemma_decimal(n);
    let all = "d"@ + text::decimal(n);
    assert(all.subrange(0, 1) =~= "d"@);
    assert(all.skip(1) =~= text::decimal(n));
}

} // verus!
