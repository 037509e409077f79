use gh_actui::github::{RunMetrics, RunStatus, Workflow, WorkflowTriage};
use gh_actui::keys::{Key, KeyPress};
use gh_actui::layout::{layout_areas, FocusDirection, Rect};
use gh_actui::panes::{ResizeAmount, ResizeAxis};
use gh_actui::repository::Repository;
use gh_actui::state::{self, ViewState, ViewTab};
use gh_actui::tui::{App, Effect, LoadEvent, Mode, TriageTarget};

fn workflow(id: u64, status: RunStatus) -> Workflow {
    Workflow {
        id,
        name: format!("Workflow {id}"),
        path: String::new(),
        state: "active".to_owned(),
        run_status: status,
        is_in_progress: false,
        run_metrics: RunMetrics::default(),
    }
}

fn workflows(count: u64) -> Vec<Workflow> {
    (0..count)
        .map(|id| workflow(id, RunStatus::Failure))
        .collect()
}

fn repository() -> Repository {
    Repository::parse("owner/repository").unwrap()
}

fn app(count: u64) -> App {
    App::new(repository(), workflows(count), None, None, 0)
}

fn text(value: &str) -> Option<String> {
    Some(value.to_owned())
}

fn press(app: &mut App, code: Key) -> Effect {
    app.handle_key(KeyPress::plain(code), 0)
}

fn run(app: &mut App, command: &str) -> Effect {
    press(app, Key::Char(':'));
    for character in command.chars() {
        press(app, Key::Char(character));
    }
    press(app, Key::Enter)
}

fn shown(app: &App) -> Vec<u64> {
    app.visible_workflows()
        .iter()
        .map(|workflow| workflow.id)
        .collect()
}

fn result(workflow_id: u64) -> WorkflowTriage {
    WorkflowTriage {
        workflow_id,
        failed_jobs: String::new(),
        failed_steps: String::new(),
        failed_tests: Vec::new(),
        unexpectedly_passed_tests: Vec::new(),
        lit_summary: String::new(),
    }
}

#[test]
fn tab_navigation_returns() {
    let mut app = app(1);
    app.tab_new(&None);
    app.tab_new(&text("third"));
    for _ in 0..3 {
        let before = app.active_tab;
        app.tab_next();
        app.tab_previous();
        assert_eq!(app.active_tab, before);
        app.tab_previous();
        app.tab_next();
        assert_eq!(app.active_tab, before);
        app.tab_next();
        let place = app.active_tab + 1;
        assert_eq!(app.message.as_deref(), Some(format!("Tab {place}").as_str()));
    }
    app.tab_close();
    assert_eq!(app.message.as_deref(), Some("Tab 2 closed"));
    app.tab_close();
    app.tab_close();
    assert_eq!(app.message.as_deref(), Some("Last tab reset"));
    assert_eq!(app.tabs.len(), 1);
    app.tab_new(&None);
    assert_eq!(app.message.as_deref(), Some("Tab 2 opened"));
}

#[test]
fn deletion_takes_rows_from_the_selected_one_on() {
    let mut app = app(6);
    app.tab_new(&None);
    app.set_sort(&text("name:desc"));
    app.select_next(1);
    app.delete_rows(3);
    assert_eq!(shown(&app), [5, 1, 0]);
    assert_eq!(app.active_view().table_state.selected(), Some(1));
    app.delete_rows(100);
    assert_eq!(shown(&app), [5]);
    assert_eq!(app.active_view().table_state.selected(), Some(0));
    app.tab_previous();
    assert_eq!(shown(&app), [0, 1, 2, 3, 4, 5]);
}

#[test]
fn saved_sessions_are_restored() {
    let mut app = app(4);
    app.tab_set_name(&text("All"));
    app.split_view(&text("horizontal"));
    app.set_filter(&text("-name:\"Workflow 0\""));
    app.set_sort(&text("name:desc"));
    app.select_next(2);
    app.start_triage();
    app.finish_triage(Ok(vec![result(1), result(2)]));
    app.tab_new(&text("copy of a triage"));
    assert_eq!(app.tabs.len(), 3);

    let saved = app.saved_state();
    assert!(state::are_sound(&saved.tabs));
    assert_eq!(saved.tabs.len(), 1);
    assert_eq!(saved.active_tab, 0);
    let file = ViewState::from_stored(saved.into_stored());

    let mut other = App::new(
        Repository::parse("some/where").unwrap(),
        workflows(1),
        None,
        None,
        0,
    );
    let Effect::Load { repository, wanted } = other.state_read("view.json".to_owned(), file) else {
        panic!("expected a load");
    };
    assert_eq!(repository.to_string(), "owner/repository");
    assert_eq!(wanted, Some(vec![0, 1, 2, 3]));
    let mut current = workflows(4);
    current.reverse();
    other.handle_load_event(LoadEvent::Discovered(current), 0);

    assert_eq!(other.repository.to_string(), "owner/repository");
    assert_eq!(other.state_path.as_deref(), Some("view.json"));
    assert_eq!(other.tabs.len(), 1);
    assert_eq!(other.active_tab().name.as_deref(), Some("All"));
    assert_eq!(other.active_tab().active_view, 1);
    assert_eq!(other.active_tab().layout, app.tabs[0].layout);
    assert_eq!(shown(&other), [3, 2, 1]);
    assert_eq!(other.active_view().table_state.selected(), Some(2));
    assert_eq!(
        other.active_tab().views[0].table_state.selected(),
        Some(0)
    );
}

#[test]
fn the_nearest_normal_tab_before_a_triage_is_saved_as_active() {
    let mut app = app(2);
    app.tab_new(&text("second"));
    app.tab_previous();
    app.start_triage();
    app.finish_triage(Ok(vec![result(0)]));
    assert_eq!(app.active_tab, 1);

    let saved = app.saved_state();

    assert_eq!(saved.tabs.len(), 2);
    assert_eq!(saved.active_tab, 0);
    assert_eq!(saved.tabs[1].name.as_deref(), Some("second"));
}

#[test]
fn unread_filters_of_a_file_are_kept_but_not_applied() {
    let mut tab = ViewTab::plain(vec![0, 1], Some(1));
    tab.filter = text("name:");
    tab.sort = text("x:sideways");
    let app = App::new(repository(), workflows(2), None, Some((vec![tab], 7)), 0);

    assert_eq!(app.active_tab, 0);
    assert_eq!(shown(&app), [0, 1]);
    assert_eq!(app.active_view().filter.as_deref(), Some("name:"));
    assert!(app.active_view().filter_expression.is_none());
}

#[test]
fn the_selection_follows_its_workflow() {
    let mut app = app(3);
    app.set_sort(&text("status"));
    app.select_last();
    assert_eq!(shown(&app), [0, 1, 2]);
    app.refresh_workflows();
    app.handle_load_event(LoadEvent::Discovered(workflows(3)), 0);
    app.handle_load_event(
        LoadEvent::WorkflowLoaded(workflow(0, RunStatus::Success)),
        0,
    );
    assert_eq!(shown(&app), [1, 2, 0]);
    assert_eq!(app.active_view().table_state.selected(), Some(1));
}

#[test]
fn new_workflows_count_as_loading_during_a_refresh() {
    let mut app = app(1);
    app.refresh_workflows();
    app.pending_load.as_mut().unwrap().workflow_ids = Some(vec![0, 9]);
    app.handle_load_event(
        LoadEvent::Discovered(vec![
            workflow(9, RunStatus::Other),
            workflow(0, RunStatus::Other),
        ]),
        0,
    );
    assert_eq!(app.loading_status_ids, [9]);
    assert_eq!(app.workflows[0].run_status, RunStatus::Failure);
    app.handle_load_event(
        LoadEvent::WorkflowLoaded(workflow(5, RunStatus::Success)),
        0,
    );
    assert_eq!(app.loaded_status_count, 0);
}

#[test]
fn nothing_is_refreshed_while_something_is_loaded_or_triaged() {
    let mut app = app(1);
    assert!(matches!(app.refresh_if_due(14_999), Effect::Nothing));
    assert!(matches!(app.refresh_if_due(15_000), Effect::Load { .. }));
    assert!(matches!(app.refresh_if_due(20_000), Effect::Nothing));
    assert!(matches!(app.refresh_workflows(), Effect::Nothing));
    assert_eq!(
        app.message.as_deref(),
        Some("Triage or refresh already in progress")
    );
    app.handle_load_event(LoadEvent::Complete, 20_000);
    app.start_triage();
    assert!(matches!(app.refresh_if_due(90_000), Effect::Nothing));
    assert!(matches!(app.start_triage(), Effect::Nothing));
    assert_eq!(app.message.as_deref(), Some("Triage already in progress"));
    app.triage_stopped();
    assert!(!app.triage_running);
    assert_eq!(
        app.message.as_deref(),
        Some("E484: workflow triage stopped unexpectedly")
    );
}

#[test]
fn a_triage_without_its_tab_says_so() {
    let mut app = app(2);
    app.start_triage();
    app.finish_triage(Ok(vec![result(0)]));
    assert!(matches!(app.refresh(), Effect::Triage { .. }));
    app.tab_close();
    app.finish_triage(Ok(vec![result(0)]));
    assert_eq!(
        app.message.as_deref(),
        Some("E484: triage destination is no longer available")
    );
    app.start_triage();
    app.finish_triage(Err("offline".to_owned()));
    assert_eq!(app.message.as_deref(), Some("E484: offline"));
    app.tabs[0].is_triage = true;
    app.workflows.clear();
    assert!(matches!(app.refresh(), Effect::Nothing));
    assert_eq!(
        app.message.as_deref(),
        Some("No workflows in the triage view")
    );
}

#[test]
fn triage_tabs_are_neither_split_nor_resized() {
    let mut app = app(1);
    app.tabs[0].is_triage = true;
    app.split_view(&text("vertical"));
    assert_eq!(
        app.message.as_deref(),
        Some("E474: Triage views cannot be split")
    );
    for command in ["resize equal", "resize width 3"] {
        run(&mut app, command);
        assert_eq!(
            app.message.as_deref(),
            Some("E474: Triage views cannot be resized")
        );
    }
}

#[test]
fn bad_arguments_are_told_of() {
    let mut app = app(1);
    for (command, message) in [
        ("split", "E471: Argument required"),
        ("split sideways", "E474: Invalid split direction: sideways"),
        ("resize", "E471: Argument required"),
        ("resize depth 3", "E474: Invalid resize dimension: depth"),
        ("resize height", "E471: Resize amount required"),
        ("resize height 3 4", "E488: Trailing characters: height 3 4"),
        ("resize height 0", "E474: Invalid resize amount: 0"),
        ("resize height 3", "E474: View layout is not available"),
        ("e", "E32: No file name"),
    ] {
        run(&mut app, command);
        assert_eq!(app.message.as_deref(), Some(message), "{command}");
        assert_eq!(app.mode, Mode::Normal);
    }
    app.split_view(&text("vertical"));
    app.pane_areas = layout_areas(&app.active_tab().layout, Rect::new(0, 0, 39, 20));
    app.resize_active_view(ResizeAxis::Width, ResizeAmount::Delta(1));
    assert_eq!(
        app.message.as_deref(),
        Some("Split is too small to keep both views at least 20 cells")
    );
    app.pane_areas = vec![(0, Rect::new(0, 0, 100, 20))];
    app.resize_active_view(ResizeAxis::Width, ResizeAmount::Delta(1));
    assert_eq!(
        app.message.as_deref(),
        Some("E474: Active view geometry is not available")
    );
}

#[test]
fn focus_follows_keys_and_clicks() {
    let mut app = app(1);
    app.split_view(&text("vertical"));
    app.pane_areas = layout_areas(&app.active_tab().layout, Rect::new(0, 0, 100, 20));
    assert!(app.panes_fit());
    app.move_view_focus(FocusDirection::Left);
    assert_eq!(app.active_tab().active_view, 0);
    assert_eq!(app.message.as_deref(), Some("View 1 focused"));
    app.handle_mouse(false, 60, 5);
    assert_eq!(app.active_tab().active_view, 0);
    app.handle_mouse(true, 60, 5);
    assert_eq!(app.active_tab().active_view, 1);
    app.handle_mouse(true, 60, 50);
    assert_eq!(app.active_tab().active_view, 1);
    app.tab_close();
    assert!(!app.panes_fit());
}

#[test]
fn typing_and_deleting_undo_each_other() {
    let mut app = app(1);
    press(&mut app, Key::Char(':'));
    for character in "aäb".chars() {
        press(&mut app, Key::Char(character));
    }
    press(&mut app, Key::Left);
    press(&mut app, Key::Char('日'));
    assert_eq!(app.command, "aä日b");
    press(&mut app, Key::Backspace);
    assert_eq!((app.command.as_str(), app.command_cursor), ("aäb", 2));
    press(&mut app, Key::Home);
    press(&mut app, Key::Backspace);
    assert_eq!(app.command, "aäb");
    press(&mut app, Key::End);
    press(&mut app, Key::Right);
    press(&mut app, Key::Delete);
    assert_eq!((app.command.as_str(), app.command_cursor), ("aäb", 3));
    app.handle_key(
        KeyPress {
            alt: true,
            ..KeyPress::plain(Key::Char('x'))
        },
        0,
    );
    assert_eq!(app.command, "aäb");
}

#[test]
fn the_history_is_taken_over_and_saved() {
    let mut app = app(1);
    app.open_history(None, Ok(None));
    assert_eq!(
        app.message.as_deref(),
        Some("E886: Could not determine command history path")
    );
    app.open_history(text("history"), Err("denied".to_owned()));
    assert_eq!(
        app.message.as_deref(),
        Some("E886: Could not load command history: denied")
    );
    app.open_history(text("history"), Ok(text("old\n")));
    let Effect::SaveHistory { path, contents } = run(&mut app, "  q ") else {
        panic!("expected the history to be saved");
    };
    assert_eq!((path.as_str(), contents.as_str()), ("history", "old\nq\n"));
    assert!(!app.should_quit);
    app.history_saved(text("disk full"), 0);
    assert!(app.should_quit);
    assert_eq!(
        app.message.as_deref(),
        Some("E886: Could not save command history: disk full")
    );
}

#[test]
fn a_state_that_cannot_be_read_changes_nothing() {
    let mut app = app(1);
    let error = state::Error::Read {
        path: "x".to_owned(),
        source: "denied".to_owned(),
    };
    assert!(matches!(
        app.state_read("x".to_owned(), Err(error)),
        Effect::Nothing
    ));
    assert_eq!(
        app.message.as_deref(),
        Some("E484: could not read state file x: denied")
    );
    assert!(!app.is_loading());
}

#[test]
fn a_path_that_was_written_to_outlives_a_refresh() {
    let mut app = app(2);
    app.refresh_workflows();
    run(&mut app, "w a.json");
    app.state_written("a.json".to_owned(), None, false);
    app.handle_load_event(LoadEvent::Discovered(workflows(2)), 0);
    assert_eq!(app.state_path.as_deref(), Some("a.json"));
    app.handle_load_event(LoadEvent::Complete, 0);
    assert_eq!(app.state_path.as_deref(), Some("a.json"));
}

#[test]
fn the_state_file_of_the_command_line_is_remembered_from_the_start() {
    let start = |path: Option<String>| App::new_loading(repository(), None, path, None, 0, 0).0;

    let mut failed = start(text("view.json"));
    assert_eq!(failed.state_path.as_deref(), Some("view.json"));
    failed.handle_load_event(LoadEvent::Fatal("offline".to_owned()), 0);
    assert_eq!(failed.state_path.as_deref(), Some("view.json"));

    let mut written = start(text("view.json"));
    written.state_written("other.json".to_owned(), None, false);
    written.handle_load_event(LoadEvent::Discovered(workflows(1)), 0);
    assert_eq!(written.state_path.as_deref(), Some("other.json"));

    let mut plain = start(None);
    plain.handle_load_event(LoadEvent::Discovered(workflows(1)), 0);
    assert_eq!(plain.state_path, None);
}

#[test]
fn a_rerun_follows_its_tab() {
    let mut app = app(3);
    run(&mut app, "tabnew");
    run(&mut app, "triage");
    app.finish_triage(Ok(vec![result(0), result(1)]));
    assert_eq!((app.tabs.len(), app.active_tab), (3, 2));
    run(&mut app, "refresh");
    run(&mut app, "tabprevious");
    run(&mut app, "tabclose");
    assert!(matches!(
        app.triage_target,
        Some(TriageTarget::RefreshTab { index: 1 })
    ));
    run(&mut app, "tabprevious");
    run(&mut app, "tabnew");
    assert!(matches!(
        app.triage_target,
        Some(TriageTarget::RefreshTab { index: 2 })
    ));
    app.finish_triage(Ok(vec![result(1)]));
    assert!(app.tabs[2].is_triage);
    assert_eq!(app.tabs[2].views[0].workflow_ids, [1]);

    run(&mut app, "tabnext");
    assert!(app.active_tab().is_triage);
    run(&mut app, "refresh");
    run(&mut app, "tabclose");
    assert!(app.triage_target.is_none());
    app.finish_triage(Ok(vec![result(0)]));
    assert_eq!(
        app.message.as_deref(),
        Some("E484: triage destination is no longer available")
    );
}

#[test]
fn gathered_runs_are_kept_when_a_load_is_over() {
    let mut app = app(1);
    app.refresh_workflows();
    assert!(matches!(
        app.handle_load_event(LoadEvent::Discovered(workflows(1)), 0),
        Effect::Nothing
    ));
    assert!(matches!(
        app.handle_load_event(LoadEvent::WorkflowLoaded(workflow(0, RunStatus::Success)), 0),
        Effect::Nothing
    ));
    assert!(matches!(
        app.handle_load_event(LoadEvent::Complete, 0),
        Effect::SaveCache
    ));
}
