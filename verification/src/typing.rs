//! How the command line is edited, and what commands, requests and files say.
use vstd::prelude::*;
use vstd::string::*;

use crate::actions;
use crate::command::{self, CommandModel};
use crate::github::TriageModel;
use crate::keys::{Key, KeyPress};
use crate::layout::{Rect, ViewLayout};
use crate::report;
use crate::response;
use crate::screen::BodyModel;
use crate::state::{StateErrorModel, StateModel, StoredViewState};
use crate::steering;
use crate::text::{self, CharClass};
use crate::tui::{AppModel, EffectModel, Mode, TriageTarget};

verus! {

/// Where the cursor of a command line may stand.
pub open spec fn cursor_fits(app: AppModel) -> bool {
    app.command_cursor <= app.command.len() <= usize::MAX - 1
}

/// A colon in Normal mode opens an empty command line, and Escape closes it without running
/// anything.
pub proof fn law_colon_opens_command_line(
    app: AppModel,
    press: KeyPress,
    now: u64,
    effect: EffectModel,
    after: AppModel,
)
    requires
        app.may_answer(press, now, effect, after),
    ensures
        app.mode == Mode::Normal && !app.pending_ctrl_w && press.code == Key::Char(':') ==> {
            &&& effect is Nothing
            &&& after.mode == Mode::Command
            &&& after.command.len() == 0
            &&& after.command_cursor == 0
            &&& after.tabs == app.tabs
        },
        app.mode == Mode::Command && press.code == Key::Esc ==> {
            &&& effect is Nothing
            &&& after.mode == Mode::Normal
            &&& after.command.len() == 0
            &&& after.command_history == app.command_history
            &&& after.tabs == app.tabs
        },
        app.mode == Mode::Command && press.code == Key::Esc ==> after.should_quit
            == app.should_quit,
{
}

/// A character that is typed comes where the cursor stands, and the cursor goes behind it; with
/// Control or Alt held nothing is typed.
pub proof fn law_typing_inserts(
    app: AppModel,
    press: KeyPress,
    c: char,
    now: u64,
    effect: EffectModel,
    after: AppModel,
)
    requires
        app.mode == Mode::Command,
        cursor_fits(app),
        press.code == Key::Char(c),
        app.may_answer(press, now, effect, after),
    ensures
        effect is Nothing,
        !press.control && !press.alt ==> after.command == app.command.take(
            app.command_cursor as int,
        ) + seq![c] + app.command.skip(app.command_cursor as int) && after.command_cursor
            == app.command_cursor + 1,
        press.control || press.alt ==> after.command == app.command && after.command_cursor
            == app.command_cursor,
{
    assert(app.command.insert(app.command_cursor as int, c) =~= app.command.take(
        app.command_cursor as int,
    ) + seq![c] + app.command.skip(app.command_cursor as int));
}

/// The arrows move the cursor by one character within the command, Home and End to its ends.
/// Backspace takes the character before the cursor away and Delete the one under it.
pub proof fn law_editing_keys(
    app: AppModel,
    press: KeyPress,
    now: u64,
    effect: EffectModel,
    after: AppModel,
)
    requires
        app.mode == Mode::Command,
        cursor_fits(app),
        app.may_answer(press, now, effect, after),
    ensures
        ({
            let at = app.command_cursor as int;
            let len = app.command.len() as int;
            &&& press.code == Key::Left ==> after.command == app.command && after.command_cursor
                == steering::greater(at - 1, 0)
            &&& press.code == Key::Right ==> after.command == app.command && after.command_cursor
                == steering::lesser(at + 1, len)
            &&& press.code == Key::Home ==> after.command == app.command && after.command_cursor == 0
            &&& press.code == Key::End ==> after.command == app.command && after.command_cursor
                == len
            &&& press.code == Key::Backspace && at > 0 ==> after.command == app.command.take(at - 1)
                + app.command.skip(at) && after.command_cursor == at - 1
            &&& press.code == Key::Backspace && at == 0 ==> after.command == app.command
            &&& press.code == Key::Delete && at < len ==> after.command == app.command.take(at)
                + app.command.skip(at + 1) && after.command_cursor == at
            &&& press.code == Key::Delete && at == len ==> after.command == app.command
        }),
{
    let at = app.command_cursor as int;
    if press.code == Key::Backspace && at > 0 {
        assert(app.command.remove(at - 1) =~= app.command.take(at - 1) + app.command.skip(at));
    }
    if press.code == Key::Delete && at < app.command.len() {
        assert(app.command.remove(at) =~= app.command.take(at) + app.command.skip(at + 1));
    }
}

/// Up goes back in the history from the last command on and stops at the first one; Down goes on
/// and ends with what was being typed. The cursor stands at the end each time.
pub proof fn law_history_keys(
    app: AppModel,
    press: KeyPress,
    now: u64,
    effect: EffectModel,
    after: AppModel,
)
    requires
        app.mode == Mode::Command,
        app.command_history.len() <= 1000,
        app.history_index matches Some(index) ==> index < app.command_history.len(),
        app.may_answer(press, now, effect, after),
    ensures
        press.code == Key::Up && app.command_history.len() > 0 ==> {
            let place = match app.history_index {
                None => app.command_history.len() - 1,
                Some(index) => steering::greater(index - 1, 0),
            };
            &&& after.command == app.command_history[place]
            &&& after.history_index == Some(place as usize)
            &&& after.command_cursor == after.command.len() as usize
            &&& app.history_index is None ==> after.history_draft == app.command
            &&& app.history_index is Some ==> after.history_draft == app.history_draft
        },
        press.code == Key::Up && app.command_history.len() == 0 ==> after == app,
        press.code == Key::Down ==> match app.history_index {
            None => after == app,
            Some(index) => if index + 1 < app.command_history.len() {
                after.command == app.command_history[index + 1] && after.history_index == Some(
                    (index + 1) as usize,
                )
            } else {
                after.command == app.history_draft && after.history_index is None
            },
        },
{
}

/// Enter runs the command without the blanks around it. Where the history is kept in a file, the
/// command is recorded and the history saved before that.
pub proof fn law_enter_runs_command(
    app: AppModel,
    press: KeyPress,
    now: u64,
    effect: EffectModel,
    after: AppModel,
)
    requires
        app.mode == Mode::Command,
        press.code == Key::Enter,
        app.may_answer(press, now, effect, after),
    ensures
        ({
            let command = text::trimmed(app.command);
            let history = if command.len() == 0 {
                app.command_history
            } else {
                command::recorded(app.command_history, command)
            };
            let recorded = AppModel { command_history: history, ..app };
            if command.len() > 0 && app.command_history_path is Some {
                &&& effect == (EffectModel::SaveHistory {
                    path: app.command_history_path->0,
                    contents: command::history_text(history),
                })
                &&& after == recorded
                &&& forall|e: EffectModel, a: AppModel|
                    recorded.may_go_on(None, now, e, a) ==> #[trigger] recorded.may_run(
                        command,
                        now,
                        e,
                        a,
                    )
            } else {
                recorded.may_run(command, now, effect, after)
            }
        }),
{
}

/// The commands without arguments, and their short names. Another name is unknown, and nothing is
/// no command.
pub proof fn law_commands_have_names()
    ensures
        command::command_of("q"@) == CommandModel::Quit,
        command::command_of("w"@) == (CommandModel::Write { path: None }),
        command::command_of("wq"@) == (CommandModel::WriteQuit { path: None }),
        command::command_of("e"@) == (CommandModel::Edit { path: None }),
        command::command_of("d"@) == (CommandModel::Delete { count: 1 }),
        command::command_of("filter"@) == (CommandModel::Filter { expression: None }),
        command::command_of("sort"@) == (CommandModel::Sort { specification: None }),
        command::command_of("refresh"@) == CommandModel::Refresh,
        command::command_of("triage"@) == CommandModel::Triage,
        command::command_of("tabnext"@) == CommandModel::TabNext,
        command::command_of("tabn"@) == CommandModel::TabNext,
        command::command_of("tabprevious"@) == CommandModel::TabPrevious,
        command::command_of("tabp"@) == CommandModel::TabPrevious,
        command::command_of("tabclose"@) == CommandModel::TabClose,
        command::command_of("tabc"@) == CommandModel::TabClose,
        command::command_of(Seq::empty()) == CommandModel::Nothing,
{
    reveal(command::command_of);
    reveal_strlit("");
    reveal_strlit("q");
    reveal_strlit("w");
    reveal_strlit("wq");
    reveal_strlit("e");
    reveal_strlit("d");
    reveal_strlit("filter");
    reveal_strlit("sort");
    reveal_strlit("split");
    reveal_strlit("resize");
    reveal_strlit("refresh");
    reveal_strlit("refresh-rate");
    reveal_strlit("triage");
    reveal_strlit("tabnew");
    reveal_strlit("tabsetname");
    reveal_strlit("tabnext");
    reveal_strlit("tabn");
    reveal_strlit("tabprevious");
    reveal_strlit("tabp");
    reveal_strlit("tabclose");
    reveal_strlit("tabc");
    lemma_plain_word("q"@);
    lemma_plain_word("w"@);
    lemma_plain_word("wq"@);
    lemma_plain_word("e"@);
    lemma_plain_word("filter"@);
    lemma_plain_word("sort"@);
    lemma_plain_word("refresh"@);
    lemma_plain_word("triage"@);
    lemma_plain_word("tabnext"@);
    lemma_plain_word("tabn"@);
    lemma_plain_word("tabprevious"@);
    lemma_plain_word("tabp"@);
    lemma_plain_word("tabclose"@);
    lemma_plain_word("tabc"@);
    assert("d"@.subrange(0, 1) =~= "d"@);
    let none = Seq::<char>::empty();
    assert(none =~= ""@);
    if text::begins_with(none, "d"@) {
        assert(false);
    }
    assert("q"@[0] == 'q' && "w"@[0] == 'w' && "e"@[0] == 'e');
    assert("refresh"@.len() == 7 && "triage"@.len() == 6 && "tabnext"@.len() == 7);
    assert("triage"@[1] == 'r' && "tabnew"@[1] == 'a' && "filter"@[0] == 'f' && "triage"@[0] == 't');
    assert("resize"@[0] == 'r' && "refresh"@[0] == 'r' && "tabnext"@[0] == 't');
    assert("tabnext"@[3] == 'n' && "tabn"@[3] == 'n' && "tabprevious"@[3] == 'p' && "tabp"@[3]
        == 'p' && "tabclose"@[3] == 'c' && "tabc"@[3] == 'c');
    assert("sort"@[0] == 's' && "tabn"@[0] == 't' && "tabp"@[0] == 't' && "tabc"@[0] == 't');
    assert("tabn"@.len() == 4 && "tabp"@.len() == 4 && "tabc"@.len() == 4 && "sort"@.len() == 4);
    assert("tabprevious"@.len() == 11 && "tabclose"@.len() == 8);
    assert("q"@.len() == 1 && "w"@.len() == 1 && "e"@.len() == 1 && "wq"@.len() == 2);
    assert("filter"@.len() == 6 && "split"@.len() == 5 && "resize"@.len() == 6);
    assert("tabnew"@.len() == 6 && "tabsetname"@.len() == 10 && "refresh-rate"@.len() == 12);
}

proof fn lemma_plain_word(name: Seq<char>)
    requires
        steering::is_name(name),
    ensures
        command::words_of_command(name) == (name, None::<Seq<char>>),
        command::delete_of(name) is None,
{
    reveal_strlit("d");
    text::lemma_class_from(name, CharClass::Space, 0);
    let end = text::class_from(name, CharClass::Space, 0);
    if end < name.len() {
        assert(!text::is_space(name[end]));
    }
    if text::begins_with(name, "d"@) {
        assert(name.subrange(0, 1)[0] == 'd');
    }
}

/// A page is asked for by a GET request that shows its header; a validator that is known is sent
/// along, and none otherwise.
pub proof fn law_requests_send_validator(path: Seq<char>, etag: Seq<char>)
    ensures
        response::page_arguments(path, None) == seq!["api"@, "-i"@, "-X"@, "GET"@, path],
        response::page_arguments(path, Some(etag)) == seq![
            "api"@,
            "-i"@,
            "-X"@,
            "GET"@,
            path,
            "-H"@,
            "If-None-Match: "@ + etag,
        ],
{
    assert(response::page_arguments(path, Some(etag)) =~= seq![
        "api"@,
        "-i"@,
        "-X"@,
        "GET"@,
        path,
        "-H"@,
        "If-None-Match: "@ + etag,
    ]);
}

/// A state file of another version is refused with the version that it has. An older file without
/// identifiers and tabs gives one unnamed tab of the workflows that it holds.
pub proof fn law_state_files_are_read(stored: StoredViewState)
    ensures
        stored.version != 1 ==> stored.session() == Err::<StateModel, StateErrorModel>(
            StateErrorModel::UnsupportedVersion { found: stored.version },
        ),
        stored.version == 1 ==> (stored.session() matches Ok(session) && session.repository
            == stored.repository@ && session.active_tab == stored.active_tab && session.workflow_ids
            == (if stored.workflow_ids@.len() > 0 {
            stored.workflow_ids@
        } else {
            stored.workflows@
        }) && (stored.tabs@.len() > 0 ==> session.tabs.len() == stored.tabs@.len()) && (
        stored.tabs@.len() == 0 ==> session.tabs.len() == 1 && session.tabs[0].name is None
            && session.tabs[0].views.len() == 1 && session.tabs[0].views[0].workflow_ids
            == session.workflow_ids && session.tabs[0].views[0].filter is None
            && session.tabs[0].views[0].sort is None && session.tabs[0].layout
            == (ViewLayout::Pane { index: 0 }))),
{
}

/// The findings of a new triage come in a tab right behind the one that it was started from, called
/// Triage, with the workflows of the findings in their order; it becomes the active tab, and the
/// first row is selected.
pub proof fn law_findings_open_tab(
    app: AppModel,
    results: Seq<TriageModel>,
    insert_after: usize,
)
    requires
        insert_after < app.tabs.len() < usize::MAX,
        app.triage_target == Some(TriageTarget::NewTab { insert_after }),
        results.len() > 0,
    ensures
        ({
            let after = app.triage_ended(Ok(results));
            &&& !after.triage_running
            &&& after.tabs.len() == app.tabs.len() + 1
            &&& after.active_tab == insert_after + 1
            &&& after.active().name == Some("Triage"@)
            &&& after.active().is_triage
            &&& after.active_view().workflow_ids == results.map_values(
                |result: TriageModel| result.workflow_id,
            )
            &&& after.active_view().filter_expression is None
            &&& after.active_view().sort_spec is None
            &&& after.active_view().table_state.selected == Some(0usize)
            &&& after.tabs.remove(after.active_tab as int) == app.tabs
        }),
{
    let after = app.triage_ended(Ok(results));
    assert(after.tabs.remove(after.active_tab as int) =~= app.tabs);
    assert(actions::result_ids(results) =~= results.map_values(
        |result: TriageModel| result.workflow_id,
    ));
}

/// The screen shows the lists of a tab, one pane for each area; of a triage it shows a summary and
/// the findings, the selected workflow first, or that there are none.
pub proof fn law_body_shows_tab(app: AppModel, area: Rect, flash: bool, k: int)
    ensures
        !app.active().is_triage ==> (app.body(area, flash) matches BodyModel::Lists(panes)
            && panes.len() == app.pane_areas.len() && (0 <= k < panes.len() ==> panes[k].view
            == app.pane_areas[k].0 && panes[k].area == app.pane_areas[k].1 && panes[k].active == (
        app.pane_areas[k].0 == app.active().active_view))),
        app.active().is_triage && app.visible().len() == 0 ==> app.body(area, flash) is NoTriage,
        app.active().is_triage && app.visible().len() > 0 ==> (app.body(area, flash) matches
            BodyModel::Triage { summary, panels, .. } && summary == report::correlation_lines(
            app.visible(),
            app.triage,
        ) && (0 <= k < panels.len() && steering::row_now(app) + k < app.visible().len()
            && steering::row_now(app) >= 0 ==> panels[k].title == " "@ + app.visible()[steering::row_now(
            app,
        ) + k].name@ + " "@ && panels[k].text == report::triage_lines(
            actions::result_of(app.triage, app.visible()[steering::row_now(app) + k].id),
        ) && panels[k].selected == (k == 0))),
{
}

/// Whether a text is the name of a command that takes an argument.
pub open spec fn takes_argument(name: Seq<char>) -> bool {
    ||| name == "w"@ || name == "wq"@ || name == "e"@
    ||| name == "filter"@ || name == "sort"@ || name == "split"@ || name == "resize"@
    ||| name == "tabnew"@ || name == "tabsetname"@ || name == "refresh-rate"@
}

/// Whether a text is the name of a command that takes none.
pub open spec fn takes_none(name: Seq<char>) -> bool {
    ||| name == "q"@ || name == "refresh"@ || name == "triage"@
    ||| name == "tabnext"@ || name == "tabn"@
    ||| name == "tabprevious"@ || name == "tabp"@
    ||| name == "tabclose"@ || name == "tabc"@
}

/// Whether a text is the letter that deletes, with digits behind it or none.
pub open spec fn is_deletion(name: Seq<char>) -> bool {
    name.len() > 0 && name[0] == 'd' && forall|k: int|
        1 <= k < name.len() ==> '0' <= #[trigger] name[k] <= '9'
}

/// Nothing but a known name is a command: any other is unknown, and so is one that takes no
/// argument with one behind it. Only the letter that deletes, with digits or none, deletes.
pub proof fn law_other_commands_are_unknown(name: Seq<char>, argument: Seq<char>)
    requires
        name.len() > 0,
        forall|k: int| 0 <= k < name.len() ==> !text::is_space(#[trigger] name[k]),
    ensures
        !takes_argument(name) && !takes_none(name) && !is_deletion(name) ==> command::command_of(
            name,
        ) == CommandModel::Unknown,
        !takes_argument(name) ==> command::command_of(name + " "@ + argument)
            == CommandModel::Unknown,
        command::command_of(name) is Delete ==> is_deletion(name),
{
    reveal(command::command_of);
    reveal_strlit(" ");
    reveal_strlit("d");
    reveal_strlit("");
    let all = name + " "@ + argument;
    let class = CharClass::Space;
    text::lemma_class_from(all, class, 0);
    text::lemma_class_from(name, class, 0);
    let at = text::class_from(all, class, 0);
    assert(all[name.len() as int] == ' ');
    assert(text::is_space(' '));
    if at < name.len() {
        assert(all[at] == name[at]);
    }
    assert(at == name.len());
    assert(all.take(name.len() as int) =~= name);
    let end = text::class_from(name, class, 0);
    if end < name.len() {
        assert(!text::is_space(name[end]));
    }
    assert(command::words_of_command(name).0 == name);
    let count = name.skip(1);
    if text::begins_with(name, "d"@) {
        assert(name.subrange(0, 1)[0] == 'd');
        if text::all_digits(count) {
            assert forall|k: int| 1 <= k < name.len() implies '0' <= #[trigger] name[k] <= '9' by {
                assert(count[k - 1] == name[k]);
                assert(text::is_digit(count[k - 1]));
            }
        }
    }
    let more = all.skip(1);
    assert(more[name.len() - 1] == ' ');
    if text::all_digits(more) {
        assert(text::is_digit(more[name.len() - 1]));
    }
}

} // verus!
