use gh_actui::command::{self, MAX_COMMAND_HISTORY};
use gh_actui::github::{RunCounts, RunMetrics, RunStatus, Workflow, WorkflowTriage};
use gh_actui::keys::{Key, KeyPress};
use gh_actui::layout::{
    layout_areas, Rect, SplitDirection, ViewLayout, EQUAL_SPLIT_RATIO, MIN_VIEW_WIDTH,
};
use gh_actui::query::{FilterExpression, Number, Numerals, SortSpec};
use gh_actui::report::{triage_block_height, triage_correlation_summary, triage_text};
use gh_actui::repository::Repository;
use gh_actui::screen::{flash_visible, metrics_band, status_indicator, RateBand};
use gh_actui::state::{StoredViewState, ViewState};
use gh_actui::tui::{
    load_targets, App, Effect, LoadEvent, LoadKind, Mode, TriageTarget, DEFAULT_REFRESH_INTERVAL,
};

const NOW: u64 = 1_000_000;

fn workflow(id: u64) -> Workflow {
    Workflow {
        id,
        name: format!("Workflow {id}"),
        path: format!(".github/workflows/{id}.yml"),
        state: "active".to_owned(),
        run_status: RunStatus::Other,
        is_in_progress: false,
        run_metrics: RunMetrics::default(),
    }
}

fn repository() -> Repository {
    Repository::parse("owner/repository").unwrap()
}

/// What is loaded from in place of GitHub.
struct Source {
    discovered: Vec<Workflow>,
    loaded_ids: Vec<u64>,
    succeeds: bool,
}

fn refreshed_source() -> Source {
    Source {
        discovered: (0..100)
            .map(|id| {
                let mut found = workflow(id);
                found.name = format!("Refreshed Workflow {id}");
                found.run_status = RunStatus::Success;
                found
            })
            .collect(),
        loaded_ids: Vec::new(),
        succeeds: false,
    }
}

fn recording_source(ids: &[u64]) -> Source {
    Source {
        discovered: ids.iter().copied().map(workflow).collect(),
        loaded_ids: Vec::new(),
        succeeds: true,
    }
}

impl Source {
    fn load_status(&mut self, target: &Workflow) -> Workflow {
        self.loaded_ids.push(target.id);
        let mut target = target.clone();
        if self.succeeds {
            target.run_status = RunStatus::Success;
        }
        target
    }

    /// The events of a load, in the order in which they come.
    fn events(&mut self, wanted: &Option<Vec<u64>>) -> Vec<LoadEvent> {
        let targets = load_targets(&self.discovered, wanted);
        let mut events = vec![LoadEvent::Discovered(self.discovered.clone())];
        for target in &targets {
            events.push(LoadEvent::WorkflowLoaded(self.load_status(target)));
        }
        events.push(LoadEvent::Complete);
        events
    }
}

fn place(value: f64) -> Number {
    if value.is_nan() {
        return Number::NotANumber;
    }
    let bits = (value + 0.0).to_bits() as i64;
    Number::At(bits ^ (((bits >> 63) as u64) >> 1) as i64)
}

fn percentage(passed: u32, total: u32) -> f64 {
    if total == 0 {
        0.0
    } else {
        f64::from(passed) / f64::from(total) * 100.0
    }
}

fn read_numbers(app: &mut App, more: &[Workflow]) {
    let mut numerals = Numerals::new();
    for workflow in app.workflows.iter().chain(more) {
        let metrics = workflow.run_metrics;
        for counts in [metrics.last_24_hours, metrics.last_7_days, metrics.last_14_days] {
            let rate = percentage(counts.passed, counts.total).to_string();
            numerals.rates.push((counts.passed, counts.total, rate));
        }
    }
    let mut texts = app.texts_to_read(&numerals);
    texts.extend(more.iter().map(|workflow| workflow.name.clone()));
    for text in texts {
        if let Ok(value) = text.parse::<f64>() {
            numerals.readings.push((text, place(value)));
        }
    }
    app.set_numerals(numerals);
}

fn app(workflow_count: u64) -> App {
    App::new(
        repository(),
        (0..workflow_count).map(workflow).collect(),
        None,
        None,
        NOW,
    )
}

fn key(code: Key) -> KeyPress {
    KeyPress::plain(code)
}

fn with_control(code: Key) -> KeyPress {
    KeyPress {
        control: true,
        ..KeyPress::plain(code)
    }
}

fn press(app: &mut App, press: KeyPress) -> Effect {
    read_numbers(app, &[]);
    app.handle_key(press, NOW)
}

fn enter_command(app: &mut App, command: &str) {
    press(app, key(Key::Char(':')));
    for character in command.chars() {
        press(app, key(Key::Char(character)));
    }
}

fn run(app: &mut App, command: &str) -> Effect {
    enter_command(app, command);
    press(app, key(Key::Enter))
}

fn handle_event(app: &mut App, event: LoadEvent) {
    let more = match &event {
        LoadEvent::Discovered(workflows) => workflows.clone(),
        LoadEvent::WorkflowLoaded(workflow) => vec![workflow.clone()],
        _ => Vec::new(),
    };
    read_numbers(app, &more);
    app.handle_load_event(event, NOW);
}

fn complete_loading(app: &mut App, effect: Effect, source: &mut Source) {
    let Effect::Load { wanted, .. } = effect else {
        panic!("expected a load");
    };
    for event in source.events(&wanted) {
        handle_event(app, event);
    }
}

fn complete_triage(app: &mut App, effect: Effect) {
    let Effect::Triage { workflows, .. } = effect else {
        panic!("expected a triage");
    };
    let results = workflows
        .iter()
        .map(|workflow| WorkflowTriage {
            workflow_id: workflow.id,
            failed_jobs: format!("Job {}", workflow.id),
            failed_steps: "Run HLSL Tests".to_owned(),
            failed_tests: vec!["example.test".to_owned()],
            unexpectedly_passed_tests: Vec::new(),
            lit_summary: "Failed Tests (1): example.test".to_owned(),
        })
        .collect();
    read_numbers(app, &[]);
    app.finish_triage(Ok(results));
}

fn arrange(app: &mut App, width: u16, height: u16) {
    app.pane_areas = layout_areas(&app.active_tab().layout, Rect::new(0, 0, width, height));
}

fn argument(text: &str) -> Option<String> {
    Some(text.to_owned())
}

fn split_ratio(layout: &ViewLayout) -> u16 {
    match layout {
        ViewLayout::Split { ratio, .. } => *ratio,
        ViewLayout::Pane { .. } => panic!("expected split layout"),
    }
}

fn selected(app: &App) -> Option<usize> {
    app.active_view().table_state.selected()
}

#[test]
fn split_command_duplicates_active_view_with_requested_layout() {
    let mut app = app(3);
    run(&mut app, "split vertical");

    assert_eq!(app.active_tab().views.len(), 2);
    assert_eq!(app.active_tab().active_view, 1);
    assert_eq!(app.active_view().workflow_ids, vec![0, 1, 2]);
    assert_eq!(
        app.active_tab().layout,
        ViewLayout::Split {
            direction: SplitDirection::Vertical,
            ratio: EQUAL_SPLIT_RATIO,
            first: Box::new(ViewLayout::Pane { index: 0 }),
            second: Box::new(ViewLayout::Pane { index: 1 }),
        }
    );
}

#[test]
fn filters_and_sorts_apply_only_to_active_split() {
    let mut app = app(3);
    run(&mut app, "split horizontal");
    run(&mut app, "filter name:\"Workflow 1\"");

    assert!(app.active_tab().views[0].filter.is_none());
    assert_eq!(
        app.active_tab().views[1].filter.as_deref(),
        Some("name:\"Workflow 1\"")
    );
    assert_eq!(app.visible_workflows().len(), 1);

    arrange(&mut app, 80, 20);
    press(&mut app, with_control(Key::Char('w')));
    press(&mut app, key(Key::Char('k')));
    assert_eq!(app.active_tab().active_view, 0);
    assert_eq!(app.visible_workflows().len(), 3);
}

#[test]
fn mouse_click_focuses_split_view() {
    let mut app = app(2);
    app.split_view(&argument("vertical"));
    arrange(&mut app, 100, 20);

    app.handle_mouse(true, 10, 5);

    assert_eq!(app.active_tab().active_view, 0);
}

#[test]
fn persisted_tabs_include_split_layout_and_view_state() {
    let mut app = app(3);
    app.split_view(&argument("vertical"));
    app.active_view_mut().filter = Some("status:failure".to_owned());
    app.active_view_mut().filter_expression =
        Some(FilterExpression::parse("status:failure").unwrap());
    app.active_view_mut().sort = Some("name:desc".to_owned());
    app.active_view_mut().sort_spec = Some(SortSpec::parse("name:desc").unwrap());

    let (tabs, active_tab) = app.persisted_tabs();

    assert_eq!(active_tab, 0);
    assert_eq!(tabs[0].additional_views.len(), 1);
    assert_eq!(
        tabs[0].additional_views[0].filter.as_deref(),
        Some("status:failure")
    );
    assert_eq!(
        tabs[0].additional_views[0].sort.as_deref(),
        Some("name:desc")
    );
    assert_eq!(tabs[0].active_view, 1);
    assert!(matches!(tabs[0].layout, ViewLayout::Split { .. }));
}

#[test]
fn resize_command_supports_relative_and_absolute_widths() {
    let mut app = app(2);
    app.split_view(&argument("vertical"));
    arrange(&mut app, 100, 20);

    app.resize_command(&argument("width +10"));
    assert_eq!(split_ratio(&app.active_tab().layout), 400);

    arrange(&mut app, 100, 20);
    app.resize_command(&argument("width 30"));
    assert_eq!(split_ratio(&app.active_tab().layout), 700);
}

#[test]
fn resize_clamps_both_views_to_minimum_size() {
    let mut app = app(2);
    app.split_view(&argument("vertical"));
    arrange(&mut app, 100, 20);

    app.resize_command(&argument("width +100"));

    let areas = layout_areas(&app.active_tab().layout, Rect::new(0, 0, 100, 20));
    assert_eq!(areas[0].1.width, MIN_VIEW_WIDTH);
    assert_eq!(areas[1].1.width, 100 - MIN_VIEW_WIDTH);
}

#[test]
fn resize_uses_nearest_matching_split_and_equalizes_leaf_views() {
    let mut app = app(3);
    app.split_view(&argument("vertical"));
    app.split_view(&argument("vertical"));
    arrange(&mut app, 100, 20);

    app.resize_command(&argument("width +5"));

    let ViewLayout::Split {
        ratio: outer_ratio,
        second,
        ..
    } = &app.active_tab().layout
    else {
        panic!("expected outer split");
    };
    assert_eq!(*outer_ratio, EQUAL_SPLIT_RATIO);
    assert_eq!(split_ratio(second), 400);

    app.resize_command(&argument("equal"));
    let ViewLayout::Split { ratio, second, .. } = &app.active_tab().layout else {
        panic!("expected outer split");
    };
    assert_eq!(*ratio, 333);
    assert_eq!(split_ratio(second), EQUAL_SPLIT_RATIO);
}

#[test]
fn resize_equal_gives_repeated_horizontal_splits_equal_heights() {
    let mut app = app(4);
    app.split_view(&argument("horizontal"));
    app.split_view(&argument("horizontal"));
    app.split_view(&argument("horizontal"));

    app.resize_command(&argument("equal"));

    let areas = layout_areas(&app.active_tab().layout, Rect::new(0, 0, 80, 40));
    assert_eq!(
        areas
            .iter()
            .map(|(_, area)| area.height)
            .collect::<Vec<_>>(),
        vec![10, 10, 10, 10]
    );
}

#[test]
fn ctrl_w_resize_shortcuts_adjust_active_view() {
    let mut app = app(2);
    app.split_view(&argument("horizontal"));
    arrange(&mut app, 80, 20);

    press(&mut app, with_control(Key::Char('w')));
    press(&mut app, key(Key::Char('+')));

    assert_eq!(split_ratio(&app.active_tab().layout), 450);
}

#[test]
fn resize_reports_when_no_matching_split_exists() {
    let mut app = app(2);
    app.split_view(&argument("vertical"));
    arrange(&mut app, 100, 20);

    app.resize_command(&argument("height +1"));

    assert_eq!(
        app.message.as_deref(),
        Some("Active view has no resizable horizontal split")
    );
}

#[test]
fn new_selects_first_workflow() {
    assert_eq!(selected(&app(2)), Some(0));
}

#[test]
fn new_leaves_selection_empty_without_workflows() {
    assert_eq!(selected(&app(0)), None);
}

#[test]
fn new_loading_returns_before_workflows_are_available() {
    let (mut app, effect) = App::new_loading(repository(), None, None, None, 0, NOW);

    assert!(app.is_loading());
    assert!(app.workflows.is_empty());
    assert_eq!(
        app.normal_status(),
        (
            " LOADING ",
            "Loading workflows for owner/repository...".to_owned()
        )
    );

    complete_loading(&mut app, effect, &mut refreshed_source());

    assert!(!app.is_loading());
    assert_eq!(app.workflows.len(), 100);
    assert_eq!(selected(&app), Some(0));
}

#[test]
fn initial_load_displays_workflows_before_statuses_finish() {
    let (mut app, effect) = App::new_loading(repository(), None, None, None, 0, NOW);
    let Effect::Load { wanted, .. } = effect else {
        panic!("expected a load");
    };
    let mut events = recording_source(&[1, 2]).events(&wanted).into_iter();
    handle_event(&mut app, events.next().unwrap());

    assert!(app.is_loading());
    assert_eq!(app.workflows.len(), 2);
    assert_eq!(app.workflows[0].run_status, RunStatus::Other);
    assert_eq!(selected(&app), Some(0));
    assert_eq!(
        app.normal_status().1,
        "Loading run status for owner/repository... (0/2)"
    );
    assert_eq!(app.loading_status_ids, vec![1, 2]);

    for event in events {
        handle_event(&mut app, event);
    }

    assert!(!app.is_loading());
    assert!(app
        .workflows
        .iter()
        .all(|workflow| workflow.run_status == RunStatus::Success));
    assert!(app.loading_status_ids.is_empty());
}

#[test]
fn refresh_progress_counts_only_displayed_workflows() {
    let mut source = recording_source(&[1, 2, 3, 4, 5]);
    let mut app = App::new(
        repository(),
        vec![workflow(2), workflow(4)],
        None,
        None,
        NOW,
    );

    let effect = app.refresh_workflows();
    complete_loading(&mut app, effect, &mut source);

    let mut loaded = source.loaded_ids.clone();
    loaded.sort_unstable();
    assert_eq!(loaded, vec![2, 4]);
    assert_eq!(app.loaded_status_count, 2);
    assert_eq!(app.workflows.len(), 2);
}

#[test]
fn refresh_progress_never_exceeds_total_while_statuses_stream_in() {
    let mut source = recording_source(&[1, 2, 3, 4, 5]);
    let mut app = App::new(
        repository(),
        vec![workflow(2), workflow(4)],
        None,
        None,
        NOW,
    );

    let Effect::Load { wanted, .. } = app.refresh_workflows() else {
        panic!("expected a load");
    };
    for event in source.events(&wanted) {
        handle_event(&mut app, event);
        assert!(
            app.loaded_status_count <= app.workflows.len() as u64,
            "progress {} exceeded total {}",
            app.loaded_status_count,
            app.workflows.len()
        );
        if app.is_loading() && !app.workflows.is_empty() {
            assert_eq!(
                app.normal_status().1,
                format!(
                    "Refreshing run status for owner/repository... ({}/2)",
                    app.loaded_status_count
                )
            );
        }
    }
    assert!(!app.is_loading());
}

#[test]
fn refresh_keeps_previous_status_visible_instead_of_marking_rows_loading() {
    let mut app = app(2);
    app.workflows[0].run_status = RunStatus::Failure;
    app.workflows[0].run_metrics.last_24_hours = RunCounts {
        passed: 3,
        failed: 1,
        total: 4,
    };
    app.workflows[1].run_status = RunStatus::Success;

    let Effect::Load { wanted, .. } = app.refresh_workflows() else {
        panic!("expected a load");
    };
    let mut events = refreshed_source().events(&wanted).into_iter();
    handle_event(&mut app, events.next().unwrap());

    assert!(app.is_loading());
    assert!(app.loading_status_ids.is_empty());
    assert_eq!(app.workflows[0].run_status, RunStatus::Failure);
    assert_eq!(
        app.workflows[0].run_metrics.last_24_hours,
        RunCounts {
            passed: 3,
            failed: 1,
            total: 4
        }
    );
    assert_eq!(app.workflows[1].run_status, RunStatus::Success);

    for event in events {
        handle_event(&mut app, event);
    }

    assert!(app.loading_status_ids.is_empty());
    assert_eq!(app.workflows[0].name, "Refreshed Workflow 0");
}

#[test]
fn loading_saved_view_filters_current_data_in_saved_order() {
    let (mut app, effect) = App::new_loading(
        repository(),
        Some(vec![3, 1]),
        Some("saved-view.json".to_owned()),
        None,
        0,
        NOW,
    );

    complete_loading(&mut app, effect, &mut refreshed_source());

    let ids: Vec<_> = app.workflows.iter().map(|workflow| workflow.id).collect();
    assert_eq!(ids, vec![3, 1]);
    assert_eq!(app.state_path.as_deref(), Some("saved-view.json"));
}

#[test]
fn persisted_tabs_exclude_triage_views_and_remap_active_tab() {
    let mut app = app(3);
    let mut triage = app.active_tab().clone();
    triage.name = Some("Triage".to_owned());
    triage.is_triage = true;
    app.tabs.push(triage);
    app.active_tab = 1;

    let (tabs, active_tab) = app.persisted_tabs();

    assert_eq!(tabs.len(), 1);
    assert_eq!(tabs[0].name, None);
    assert_eq!(tabs[0].workflow_ids, vec![0, 1, 2]);
    assert_eq!(active_tab, 0);
}

#[test]
fn persisted_tabs_fall_back_to_global_workflows_when_only_triage_remains() {
    let mut app = app(3);
    app.tabs[0].is_triage = true;
    app.active_view_mut().workflow_ids = vec![2];

    let (tabs, active_tab) = app.persisted_tabs();

    assert_eq!(tabs.len(), 1);
    assert_eq!(tabs[0].workflow_ids, vec![0, 1, 2]);
    assert_eq!(tabs[0].selected_workflow_id, Some(0));
    assert_eq!(active_tab, 0);
}

#[test]
fn refresh_command_updates_current_workflows_in_background() {
    let mut app = app(2);
    app.workflows[0].name = "Stale Workflow".to_owned();
    app.select_next(1);

    let effect = run(&mut app, "refresh");

    assert!(app.is_loading());
    assert_eq!(app.pending_load.as_ref().unwrap().kind, LoadKind::Refresh);
    assert_eq!(app.normal_status().0, " REFRESHING ");
    complete_loading(&mut app, effect, &mut refreshed_source());

    assert_eq!(app.workflows[0].name, "Refreshed Workflow 0");
    assert_eq!(selected(&app), Some(1));
    assert_eq!(app.message.as_deref(), Some("2 workflows refreshed"));
}

#[test]
fn refresh_starts_automatically_when_interval_elapses() {
    let mut app = app(2);
    app.next_refresh = u128::from(NOW) - 1;

    let effect = app.refresh_if_due(NOW);

    assert!(app.is_loading());
    assert_eq!(app.pending_load.as_ref().unwrap().kind, LoadKind::Refresh);
    complete_loading(&mut app, effect, &mut refreshed_source());
}

#[test]
fn refresh_rate_command_changes_interval_and_footer() {
    let mut app = app(1);

    run(&mut app, "refresh-rate 30");

    assert_eq!(app.refresh_interval, 30);
    assert_eq!(
        app.message.as_deref(),
        Some("Refresh rate set to 30 seconds")
    );
    assert_eq!(app.refresh_rate_label(), "refresh: 30s");
}

#[test]
fn refresh_rate_command_rejects_missing_invalid_and_zero_values() {
    let mut app = app(1);

    run(&mut app, "refresh-rate");
    assert_eq!(app.message.as_deref(), Some("E471: Argument required"));

    run(&mut app, "refresh-rate fast");
    assert_eq!(app.message.as_deref(), Some("E474: Invalid argument: fast"));

    run(&mut app, "refresh-rate 0");
    assert_eq!(
        app.message.as_deref(),
        Some("E474: Refresh rate must be greater than zero")
    );
    assert_eq!(app.refresh_interval, DEFAULT_REFRESH_INTERVAL);
}

#[test]
fn handle_key_moves_selection_and_clamps_to_bounds() {
    let mut app = app(20);

    press(
        &mut app,
        KeyPress {
            shift: true,
            ..KeyPress::plain(Key::Char('G'))
        },
    );
    assert_eq!(selected(&app), Some(19));

    press(&mut app, key(Key::Char('j')));
    assert_eq!(selected(&app), Some(19));

    press(&mut app, with_control(Key::Char('u')));
    assert_eq!(selected(&app), Some(9));

    press(&mut app, key(Key::PageUp));
    assert_eq!(selected(&app), Some(0));
}

#[test]
fn handle_key_supports_gg_to_select_first_workflow() {
    let mut app = app(3);
    app.select_last();

    press(&mut app, key(Key::Char('g')));
    press(&mut app, key(Key::Char('g')));

    assert_eq!(selected(&app), Some(0));
}

#[test]
fn handle_key_does_not_quit_from_normal_mode() {
    let mut app = app(1);

    press(&mut app, key(Key::Char('q')));
    press(&mut app, key(Key::Esc));

    assert!(!app.should_quit);
}

#[test]
fn handle_key_quits_after_q_command() {
    let mut app = app(1);

    press(&mut app, key(Key::Char(':')));
    press(&mut app, key(Key::Char('q')));
    press(&mut app, key(Key::Enter));

    assert!(app.should_quit);
}

#[test]
fn escape_cancels_command_mode() {
    let mut app = app(1);

    press(&mut app, key(Key::Char(':')));
    press(&mut app, key(Key::Char('q')));
    press(&mut app, key(Key::Esc));

    assert_eq!(app.mode, Mode::Normal);
    assert!(app.command.is_empty());
    assert!(!app.should_quit);
}

#[test]
fn unknown_command_displays_error_and_returns_to_normal_mode() {
    let mut app = app(1);

    run(&mut app, "x");

    assert_eq!(app.mode, Mode::Normal);
    assert_eq!(
        app.message.as_deref(),
        Some("E492: Not an editor command: x")
    );
}

#[test]
fn command_cursor_supports_movement_and_mid_line_editing() {
    let mut app = app(1);
    enter_command(&mut app, "ac");

    press(&mut app, key(Key::Left));
    press(&mut app, key(Key::Char('b')));
    assert_eq!(app.command, "abc");
    assert_eq!(app.command_cursor, 2);

    press(&mut app, key(Key::Backspace));
    assert_eq!(app.command, "ac");
    assert_eq!(app.command_cursor, 1);

    press(&mut app, key(Key::Delete));
    assert_eq!(app.command, "a");
    assert_eq!(app.command_cursor, 1);
}

#[test]
fn command_history_scrolls_and_restores_draft() {
    let mut app = app(1);
    for command in ["first", "second"] {
        run(&mut app, command);
    }
    enter_command(&mut app, "draft");

    press(&mut app, key(Key::Up));
    assert_eq!(app.command, "second");
    press(&mut app, key(Key::Up));
    assert_eq!(app.command, "first");
    press(&mut app, key(Key::Up));
    assert_eq!(app.command, "first");

    press(&mut app, key(Key::Down));
    assert_eq!(app.command, "second");
    press(&mut app, key(Key::Down));
    assert_eq!(app.command, "draft");
    assert_eq!(app.history_index, None);
    assert_eq!(app.command_cursor, 5);
}

#[test]
fn command_history_ignores_empty_commands() {
    let mut app = app(1);
    run(&mut app, "");

    assert!(app.command_history.is_empty());
}

#[test]
fn command_history_persists_and_suppresses_consecutive_duplicates() {
    let mut app = app(1);
    app.command_history_path = Some("history.txt".to_owned());
    let mut file = String::new();

    for command in [
        "filter status:failure",
        "filter status:failure",
        "sort name",
    ] {
        let Effect::SaveHistory { path, contents } = run(&mut app, command) else {
            panic!("expected the history to be saved");
        };
        assert_eq!(path, "history.txt");
        file = contents;
        app.history_saved(None, NOW);
    }

    assert_eq!(app.command_history, ["filter status:failure", "sort name"]);
    assert_eq!(app.active_view().sort.as_deref(), Some("name"));
    assert_eq!(
        command::load_command_history(&file),
        ["filter status:failure", "sort name"]
    );
}

#[test]
fn command_history_load_retains_latest_entries() {
    let contents = (0..MAX_COMMAND_HISTORY + 2)
        .map(|index| format!("command-{index}"))
        .collect::<Vec<_>>()
        .join("\n");

    let history = command::load_command_history(&contents);

    assert_eq!(history.len(), MAX_COMMAND_HISTORY);
    assert_eq!(history.first().unwrap(), "command-2");
    assert_eq!(
        history.last().unwrap(),
        &format!("command-{}", MAX_COMMAND_HISTORY + 1)
    );
}

#[test]
fn filter_command_applies_and_clears_visible_view() {
    let mut app = app(3);

    run(&mut app, "filter name:Workflow*");
    assert_eq!(app.visible_workflows().len(), 3);
    assert_eq!(app.active_view().filter.as_deref(), Some("name:Workflow*"));

    run(&mut app, "filter name:Workflow\\ 1");
    assert_eq!(app.visible_workflows().len(), 1);
    assert_eq!(app.visible_workflows()[0].id, 1);

    run(&mut app, "filter");
    assert_eq!(app.visible_workflows().len(), 3);
    assert!(app.active_view().filter.is_none());
}

#[test]
fn sort_command_applies_direction_and_clears() {
    let mut app = app(3);
    app.workflows[0].run_metrics.last_24_hours = RunCounts {
        passed: 1,
        failed: 9,
        total: 10,
    };
    app.workflows[1].run_metrics.last_24_hours = RunCounts {
        passed: 9,
        failed: 1,
        total: 10,
    };

    run(&mut app, "sort 24h.rate:desc");
    assert_eq!(app.visible_workflows()[0].id, 1);

    run(&mut app, "sort");
    assert_eq!(app.visible_workflows()[0].id, 0);
    assert!(app.active_view().sort.is_none());
}

#[test]
fn filter_and_sort_commands_report_parse_errors_without_changing_view() {
    let mut app = app(2);

    run(&mut app, "filter name:\"unterminated");
    assert!(app.active_view().filter.is_none());
    assert!(app
        .message
        .as_deref()
        .unwrap()
        .contains("unterminated quote"));

    run(&mut app, "sort name:sideways");
    assert!(app.active_view().sort.is_none());
    assert!(app
        .message
        .as_deref()
        .unwrap()
        .contains("invalid sort direction"));
}

fn written(effect: Effect) -> (String, StoredViewState, bool) {
    let Effect::WriteState { path, state, quit } = effect else {
        panic!("expected a state to be written");
    };
    (path, state.into_stored(), quit)
}

#[test]
fn write_and_edit_commands_remember_path_and_restore_view() {
    let mut app = app(2);

    run(&mut app, "filter status:success");
    run(&mut app, "sort name:desc");
    let (path, file, quit) = written(run(&mut app, "w saved.json"));
    app.state_written(path, None, quit);
    assert_eq!(app.state_path.as_deref(), Some("saved.json"));
    assert_eq!(
        app.message.as_deref(),
        Some("\"saved.json\" 2 workflows written")
    );

    app.workflows.clear();
    let Effect::ReadState { path } = run(&mut app, "e") else {
        panic!("expected a state to be read");
    };
    assert_eq!(path, "saved.json");
    let effect = app.state_read(path, ViewState::from_stored(file));
    assert!(app.is_loading());
    complete_loading(&mut app, effect, &mut refreshed_source());

    assert_eq!(app.workflows.len(), 2);
    assert_eq!(app.workflows[0].name, "Refreshed Workflow 0");
    assert_eq!(app.workflows[0].run_status, RunStatus::Success);
    assert_eq!(app.active_view().filter.as_deref(), Some("status:success"));
    assert_eq!(app.active_view().sort.as_deref(), Some("name:desc"));
    assert_eq!(selected(&app), Some(0));
}

#[test]
fn write_command_without_path_reports_error() {
    let mut app = app(1);

    run(&mut app, "w");

    assert_eq!(app.message.as_deref(), Some("E32: No file name"));
    assert_eq!(app.mode, Mode::Normal);
}

#[test]
fn write_quit_command_saves_then_quits() {
    let mut app = app(2);

    let (path, file, quit) = written(run(&mut app, "wq saved.json"));
    assert!(!app.should_quit);
    app.state_written(path, None, quit);
    let saved = ViewState::from_stored(file).unwrap();

    assert!(app.should_quit);
    assert_eq!(saved.workflow_ids, vec![0, 1]);
}

#[test]
fn write_quit_command_does_not_quit_when_write_fails() {
    let mut app = app(1);

    run(&mut app, "wq");

    assert!(!app.should_quit);
    assert_eq!(app.message.as_deref(), Some("E32: No file name"));
    assert_eq!(app.mode, Mode::Normal);

    let (path, _, quit) = written(run(&mut app, "wq saved.json"));
    app.state_written(path, Some("disk full".to_owned()), quit);
    assert!(!app.should_quit);
    assert_eq!(app.message.as_deref(), Some("E212: disk full"));
    assert_eq!(app.mode, Mode::Normal);
    assert_eq!(app.state_path, None);
}

#[test]
fn write_state_persists_all_tabs_and_active_selection() {
    let mut app = app(3);
    app.select_next(1);
    run(&mut app, "tabnew Failures");
    run(&mut app, "filter name:Workflow\\ 2");
    let (_, file, _) = written(run(&mut app, "w saved.json"));

    let saved = ViewState::from_stored(file).unwrap();

    assert_eq!(saved.active_tab, 1);
    assert_eq!(saved.tabs.len(), 2);
    assert_eq!(saved.tabs[0].selected_workflow_id, Some(1));
    assert_eq!(saved.tabs[1].name.as_deref(), Some("Failures"));
    assert_eq!(saved.tabs[1].filter.as_deref(), Some("name:Workflow\\ 2"));
    assert_eq!(saved.tabs[1].selected_workflow_id, Some(2));
}

#[test]
fn delete_command_removes_selected_workflow() {
    let mut app = app(3);
    app.select_next(1);

    run(&mut app, "d");

    let ids = app.active_view().workflow_ids.clone();
    assert_eq!(ids, vec![0, 2]);
    assert_eq!(app.workflows.len(), 3);
    assert_eq!(selected(&app), Some(1));
    assert_eq!(app.message.as_deref(), Some("1 workflow deleted"));
}

#[test]
fn delete_count_removes_consecutive_workflows_and_clamps_at_end() {
    let mut app = app(5);
    app.select_next(3);

    run(&mut app, "d3");

    let ids = app.active_view().workflow_ids.clone();
    assert_eq!(ids, vec![0, 1, 2]);
    assert_eq!(app.workflows.len(), 5);
    assert_eq!(selected(&app), Some(2));
    assert_eq!(app.message.as_deref(), Some("2 workflows deleted"));
}

#[test]
fn delete_count_follows_filtered_and_sorted_visible_order() {
    let mut app = app(4);
    run(&mut app, "filter -name:Workflow\\ 0");
    run(&mut app, "sort name:desc");

    run(&mut app, "d2");

    let ids = app.active_view().workflow_ids.clone();
    assert_eq!(ids, vec![0, 1]);
    assert_eq!(app.visible_workflows()[0].id, 1);
}

#[test]
fn delete_count_can_empty_view_and_clear_selection() {
    let mut app = app(2);

    run(&mut app, "d2");

    assert!(app.active_view().workflow_ids.is_empty());
    assert_eq!(app.workflows.len(), 2);
    assert_eq!(selected(&app), None);
}

#[test]
fn delete_zero_reports_invalid_range() {
    let mut app = app(2);

    run(&mut app, "d0");

    assert_eq!(app.workflows.len(), 2);
    assert_eq!(app.message.as_deref(), Some("E16: Invalid range"));
}

#[test]
fn delete_from_empty_view_reports_error() {
    let mut app = app(0);

    run(&mut app, "d");

    assert_eq!(app.message.as_deref(), Some("E749: Empty buffer"));
}

#[test]
fn tabnew_duplicates_active_view_without_duplicating_workflows() {
    let mut app = app(3);
    app.select_next(1);
    run(&mut app, "filter -name:Workflow\\ 0");
    run(&mut app, "sort name:desc");

    run(&mut app, "tabnew");

    assert_eq!(app.tabs.len(), 2);
    assert_eq!(app.active_tab, 1);
    assert_eq!(app.workflows.len(), 3);
    assert_eq!(
        app.tabs[0].active_view().workflow_ids,
        app.tabs[1].active_view().workflow_ids
    );
    assert_eq!(
        app.tabs[1].active_view().filter.as_deref(),
        Some("-name:Workflow\\ 0")
    );
    assert_eq!(
        app.tabs[1].active_view().sort.as_deref(),
        Some("name:desc")
    );

    run(&mut app, "d");
    assert_eq!(app.tabs[0].active_view().workflow_ids, vec![0, 1, 2]);
    assert_eq!(app.tabs[1].active_view().workflow_ids, vec![0, 1]);
}

#[test]
fn tab_commands_and_shortcuts_wrap_between_tabs() {
    let mut app = app(2);
    for _ in 0..2 {
        run(&mut app, "tabnew");
    }
    assert_eq!(app.active_tab, 2);

    run(&mut app, "tabnext");
    assert_eq!(app.active_tab, 0);
    run(&mut app, "tabp");
    assert_eq!(app.active_tab, 2);

    press(&mut app, with_control(Key::Tab));
    assert_eq!(app.active_tab, 0);
    press(
        &mut app,
        KeyPress {
            control: true,
            shift: true,
            ..KeyPress::plain(Key::BackTab)
        },
    );
    assert_eq!(app.active_tab, 2);

    app.mode = Mode::Command;
    press(&mut app, with_control(Key::Tab));
    assert_eq!(app.active_tab, 0);
    assert_eq!(app.mode, Mode::Command);
}

#[test]
fn tabclose_closes_active_tab_and_resets_the_last_tab() {
    let mut app = app(2);
    run(&mut app, "tabnew");

    run(&mut app, "tabc");
    assert_eq!(app.tabs.len(), 1);
    assert_eq!(app.active_tab, 0);
    assert_eq!(app.active_view().workflow_ids, vec![0, 1]);

    run(&mut app, "tabclose");
    assert_eq!(app.tabs.len(), 1);
    assert!(app.active_view().workflow_ids.is_empty());
    assert!(app.workflows.len() == 2);
}

#[test]
fn tabnew_uses_optional_argument_as_tab_name() {
    let mut app = app(1);

    run(&mut app, "tabnew Weekly failures");

    assert_eq!(app.tabs.len(), 2);
    assert_eq!(app.active_tab().name.as_deref(), Some("Weekly failures"));
    assert_eq!(app.message.as_deref(), Some("Weekly failures opened"));
}

#[test]
fn tabsetname_renames_active_tab_with_full_argument() {
    let mut app = app(1);
    run(&mut app, "tabnew Old name");

    run(&mut app, "tabsetname Weekly Linux failures");

    assert_eq!(
        app.active_tab().name.as_deref(),
        Some("Weekly Linux failures")
    );
    assert_eq!(
        app.message.as_deref(),
        Some("Tab renamed to Weekly Linux failures")
    );
    assert!(app.tabs[0].name.is_none());
}

#[test]
fn tabsetname_requires_a_name() {
    let mut app = app(1);

    run(&mut app, "tabsetname");

    assert!(app.active_tab().name.is_none());
    assert_eq!(app.message.as_deref(), Some("E471: Argument required"));
}

#[test]
fn triage_uses_only_visible_failing_workflows_and_opens_result_tab() {
    let mut app = app(4);
    app.workflows[0].run_status = RunStatus::Failure;
    app.workflows[1].run_status = RunStatus::Success;
    app.workflows[2].run_status = RunStatus::Failure;
    app.workflows[3].run_status = RunStatus::Failure;
    run(&mut app, "filter -name:Workflow\\ 3");

    let effect = run(&mut app, "triage");

    assert!(app.triage_running);
    assert_eq!(app.normal_status().0, " TRIAGING ");
    complete_triage(&mut app, effect);

    assert_eq!(app.tabs.len(), 2);
    assert_eq!(app.active_tab().name.as_deref(), Some("Triage"));
    assert!(app.active_tab().is_triage);
    assert_eq!(app.active_view().workflow_ids, vec![0, 2]);
    assert_eq!(app.triage_of(0).unwrap().failed_jobs, "Job 0");
    assert_eq!(
        app.message.as_deref(),
        Some("2 failing scheduled workflows triaged")
    );
}

#[test]
fn triage_can_run_while_workflow_refresh_is_in_progress() {
    let mut app = app(2);
    app.workflows[0].run_status = RunStatus::Failure;
    let load = app.refresh_workflows();
    assert!(app.is_loading());

    let triage = app.start_triage();

    assert!(app.is_loading());
    assert!(app.triage_running);
    complete_loading(&mut app, load, &mut refreshed_source());
    complete_triage(&mut app, triage);

    assert_eq!(app.tabs.len(), 2);
    assert!(app.active_tab().is_triage);
    assert_eq!(app.active_view().workflow_ids, vec![0]);
}

#[test]
fn refresh_on_triage_tab_reruns_in_place() {
    let mut app = app(3);
    app.workflows[0].run_status = RunStatus::Failure;
    app.workflows[1].run_status = RunStatus::Failure;
    let effect = run(&mut app, "triage");
    complete_triage(&mut app, effect);
    assert_eq!(app.tabs.len(), 2);

    app.active_view_mut().workflow_ids = vec![1];
    app.workflows[1].run_status = RunStatus::Success;
    let effect = run(&mut app, "refresh");

    assert!(matches!(
        app.triage_target,
        Some(TriageTarget::RefreshTab { index: 1 })
    ));
    complete_triage(&mut app, effect);

    assert_eq!(app.tabs.len(), 2);
    assert_eq!(app.active_tab, 1);
    assert!(app.active_tab().is_triage);
    assert_eq!(app.active_tab().name.as_deref(), Some("Triage"));
    assert_eq!(app.active_view().workflow_ids, vec![1]);
    assert_eq!(app.triage_of(1).unwrap().failed_jobs, "Job 1");
}

#[test]
fn triage_reports_when_active_view_has_no_failures() {
    let mut app = app(2);

    run(&mut app, "triage");

    assert!(!app.triage_running);
    assert_eq!(
        app.message.as_deref(),
        Some("No failing workflows in the active view")
    );
}

#[test]
fn triage_text_preserves_multiline_lit_summary() {
    let triage = WorkflowTriage {
        workflow_id: 1,
        failed_jobs: "Linux tests".to_owned(),
        failed_steps: "Run HLSL Tests".to_owned(),
        failed_tests: vec!["one.test".to_owned(), "two.test".to_owned()],
        unexpectedly_passed_tests: vec!["flaky.test".to_owned()],
        lit_summary: "Failed Tests (2):\n  Suite :: one.test\n  Suite :: two.test".to_owned(),
    };

    let text = triage_text(Some(&triage));
    let lines = text
        .lines
        .iter()
        .map(|line| line.text.clone())
        .collect::<Vec<_>>();

    assert_eq!(
        lines,
        [
            "Failed jobs: Linux tests",
            "Failed steps: Run HLSL Tests",
            "",
            "Failed tests:",
            "  - one.test",
            "  - two.test",
            "",
            "Unexpectedly passed tests:",
            "  - flaky.test",
            "",
            "lit summary:",
            "Failed Tests (2):",
            "  Suite :: one.test",
            "  Suite :: two.test"
        ]
    );
    assert_eq!(triage_block_height(&text, 80), 16);
}

fn findings(
    workflow_id: u64,
    failed: &[&str],
    unexpectedly_passed: &[&str],
    lit_summary: &str,
) -> WorkflowTriage {
    WorkflowTriage {
        workflow_id,
        failed_jobs: String::new(),
        failed_steps: String::new(),
        failed_tests: failed.iter().map(|test| (*test).to_owned()).collect(),
        unexpectedly_passed_tests: unexpectedly_passed
            .iter()
            .map(|test| (*test).to_owned())
            .collect(),
        lit_summary: lit_summary.to_owned(),
    }
}

#[test]
fn triage_summary_correlates_tests_across_workflows() {
    let workflows = vec![workflow(1), workflow(2), workflow(3)];
    let triage = vec![
        findings(
            1,
            &[],
            &[],
            "\
Failed Tests (2):
  Suite :: common-failure.test
  Suite :: unique.test
Unexpectedly Passed Tests (1):
  Suite :: common-pass.test",
        ),
        findings(
            2,
            &[],
            &[],
            "\
Failed Tests (1):
  Suite :: common-failure.test
Unexpectedly Passed Tests (1):
  Suite :: common-pass.test",
        ),
        findings(
            3,
            &[],
            &[],
            "Failed Tests (1):\n  Suite :: another-unique.test",
        ),
    ];

    let summary = triage_correlation_summary(&workflows, &triage).to_string();

    assert!(summary.contains("Failed in multiple workflows:"));
    assert!(summary.contains("common-failure.test"));
    assert!(summary.contains("Workflow 1"));
    assert!(summary.contains("Workflow 2"));
    assert!(summary.contains("Unexpectedly passed in multiple workflows:"));
    assert!(summary.contains("common-pass.test"));
    assert!(!summary.contains("unique.test"));
}

#[test]
fn triage_summary_reports_when_no_tests_are_shared() {
    let workflows = vec![workflow(1)];
    let triage = vec![findings(
        1,
        &[],
        &[],
        "Failed Tests (1):\n  Suite :: unique.test",
    )];

    assert_eq!(
        triage_correlation_summary(&workflows, &triage).to_string(),
        "No tests failed or unexpectedly passed in multiple workflows."
    );
}

#[test]
fn triage_summary_correlates_structured_tests_when_raw_summary_is_missing() {
    let workflows = vec![workflow(1), workflow(2), workflow(3)];
    let triage = vec![
        findings(1, &["shared-failure.test"], &["shared-xpass.test"], ""),
        findings(
            2,
            &["shared-failure.test", "unique.test"],
            &["shared-xpass.test"],
            "",
        ),
        findings(3, &["another-unique.test"], &[], ""),
    ];

    let summary = triage_correlation_summary(&workflows, &triage).to_string();

    assert!(summary.contains("shared-failure.test"));
    assert!(summary.contains("shared-xpass.test"));
    assert!(summary.contains("Workflow 1"));
    assert!(summary.contains("Workflow 2"));
    assert!(!summary.contains("unique.test"));
}

#[test]
fn status_indicator_reflects_last_completed_run() {
    let mut workflow = workflow(1);

    assert_eq!(status_indicator(&workflow, true), "⚪");
    workflow.run_status = RunStatus::Success;
    assert_eq!(status_indicator(&workflow, true), "🟢");
    workflow.run_status = RunStatus::Failure;
    assert_eq!(status_indicator(&workflow, true), "🔴");
}

#[test]
fn status_indicator_flashes_while_run_is_in_progress() {
    let mut workflow = workflow(1);
    workflow.run_status = RunStatus::Success;
    workflow.is_in_progress = true;

    assert_eq!(status_indicator(&workflow, true), "🟢");
    assert_eq!(status_indicator(&workflow, false), "");
    assert!(flash_visible(499));
    assert!(!flash_visible(500));
    assert!(flash_visible(1000));
}

#[test]
fn metrics_color_uses_requested_thresholds() {
    let of_thousand = |passed: u32| {
        metrics_band(RunCounts {
            passed,
            failed: 1000 - passed,
            total: 1000,
        })
    };
    assert_eq!(of_thousand(699), RateBand::Low);
    assert_eq!(of_thousand(700), RateBand::Middle);
    assert_eq!(of_thousand(899), RateBand::Middle);
    assert_eq!(of_thousand(900), RateBand::High);
    assert_eq!(metrics_band(RunCounts::default()), RateBand::Low);
}

#[test]
fn workflows_of_one_name_share_tests() {
    let mut workflows = app(3).workflows;
    for workflow in &mut workflows {
        workflow.name = "CI".to_owned();
    }
    let report = |workflow_id: u64| WorkflowTriage {
        workflow_id,
        failed_jobs: String::new(),
        failed_steps: String::new(),
        failed_tests: vec!["t.test".to_owned()],
        unexpectedly_passed_tests: Vec::new(),
        lit_summary: String::new(),
    };

    assert_eq!(
        triage_correlation_summary(&workflows, &vec![report(1), report(2)]).to_string(),
        "Failed in multiple workflows:\n  t.test\n    - CI"
    );
    assert_eq!(
        triage_correlation_summary(&workflows, &vec![report(1), report(1)]).to_string(),
        "No tests failed or unexpectedly passed in multiple workflows."
    );
    assert_eq!(
        triage_correlation_summary(&workflows, &vec![report(1), report(9)]).to_string(),
        "No tests failed or unexpectedly passed in multiple workflows."
    );
}
