use gh_actui::github::{RunCounts, RunMetrics, RunStatus, Workflow, WorkflowTriage};
use gh_actui::layout::Rect;
use gh_actui::report::{block_height, lit_test_names, triage_panels, triage_text, TestOutcome};
use gh_actui::repository::Repository;
use gh_actui::screen::{cursor_column, suffix_width, Body, ListContents, ListRow};
use gh_actui::tui::{App, Effect, LoadEvent, Mode};

fn workflow(id: u64) -> Workflow {
    Workflow {
        id,
        name: format!("Workflow {id}"),
        path: String::new(),
        state: "active".to_owned(),
        run_status: RunStatus::Success,
        is_in_progress: false,
        run_metrics: RunMetrics::default(),
    }
}

fn app(count: u64) -> App {
    App::new(
        Repository::parse("owner/repository").unwrap(),
        (0..count).map(workflow).collect(),
        None,
        None,
        0,
    )
}

fn findings(workflow_id: u64, test: &str) -> WorkflowTriage {
    WorkflowTriage {
        workflow_id,
        failed_jobs: "job".to_owned(),
        failed_steps: "step".to_owned(),
        failed_tests: vec![test.to_owned()],
        unexpectedly_passed_tests: Vec::new(),
        lit_summary: String::new(),
    }
}

const AREA: Rect = Rect {
    x: 0,
    y: 1,
    width: 100,
    height: 20,
};

const SCREEN: Rect = Rect {
    x: 0,
    y: 0,
    width: 100,
    height: 22,
};

#[test]
fn the_screen_shows_the_lists_of_the_active_tab() {
    let mut app = app(2);
    app.workflows[1].is_in_progress = true;
    app.workflows[0].run_metrics.last_7_days = RunCounts {
        passed: 1,
        failed: 0,
        total: 1,
    };
    app.loading_status_ids = vec![0];
    app.split_view(&Some("vertical".to_owned()));
    app.set_filter(&Some("nothing:here".to_owned()));

    let screen = app.render(SCREEN, 600);

    assert_eq!(screen.tab_titles, [" Tab 1 "]);
    assert_eq!(screen.active_tab, 0);
    assert_eq!(screen.status, " NORMAL ");
    assert_eq!(screen.text, "Filter: nothing:here");
    assert_eq!(screen.refresh_rate, "refresh: 15s");
    assert_eq!(screen.cursor, None);
    assert_eq!(screen.tabs_area, Rect::new(0, 0, 100, 1));
    assert_eq!(screen.body_area, AREA);
    assert_eq!(screen.bar_area, Rect::new(0, 21, 100, 1));
    assert_eq!(screen.text_area, Rect::new(0, 21, 78, 1));
    assert_eq!(screen.suffix_area, Rect::new(78, 21, 22, 1));
    assert_eq!(
        app.pane_areas,
        [(0, Rect::new(0, 1, 50, 20)), (1, Rect::new(50, 1, 50, 20))]
    );
    let Body::Lists(panes) = screen.body else {
        panic!("expected lists");
    };
    assert_eq!(panes.len(), 2);
    assert_eq!(panes[0].title, " owner/repository - 2 active workflows ");
    assert_eq!((panes[0].active, panes[1].active), (false, true));
    assert_eq!(
        panes[0].contents,
        ListContents::Rows(vec![
            ListRow::Loading {
                name: "Workflow 0".to_owned()
            },
            ListRow::Ready {
                status: "",
                name: "Workflow 1".to_owned(),
                metrics: RunMetrics::default()
            },
        ])
    );
    assert_eq!(
        panes[1].contents,
        ListContents::Message("No workflows match this view's filter.")
    );
    app.loading_status_ids = Vec::new();
    let Body::Lists(panes) = app.render(SCREEN, 1000).body else {
        panic!("expected lists");
    };
    let ListContents::Rows(rows) = &panes[0].contents else {
        panic!("expected rows");
    };
    assert!(matches!(
        &rows[0],
        ListRow::Ready { status: "🟢", metrics, .. } if metrics.last_7_days.passed == 1
    ));
    assert!(matches!(&rows[1], ListRow::Ready { status: "🟢", .. }));
}

#[test]
fn empty_lists_say_why_they_are_empty() {
    let mut empty = app(0);
    let Body::Lists(panes) = empty.render(SCREEN, 0).body else {
        panic!("expected lists");
    };
    assert_eq!(
        panes[0].contents,
        ListContents::Message("This view has no active GitHub Actions workflows.")
    );
    empty.refresh_workflows();
    let screen = empty.render(SCREEN, 0);
    assert_eq!(screen.status, " REFRESHING ");
    assert_eq!(screen.text, "Refreshing workflows for owner/repository...");
    let Body::Lists(panes) = screen.body else {
        panic!("expected lists");
    };
    assert_eq!(
        panes[0].contents,
        ListContents::Message("Loading GitHub Actions workflows...")
    );
}

#[test]
fn the_command_line_is_shown_with_its_cursor() {
    let mut app = app(1);
    app.mode = Mode::Command;
    app.command = "sort".to_owned();
    app.command_cursor = 2;

    let screen = app.render(SCREEN, 0);

    assert_eq!(screen.status, " COMMAND ");
    assert_eq!(screen.text, ":sort");
    assert_eq!(screen.cursor, Some((3, 21)));
    app.command_cursor = 200;
    assert_eq!(app.render(SCREEN, 0).cursor, Some((76, 21)));
    assert_eq!(cursor_column(Rect::new(5, 0, 10, 1), 0, 2), 8);
    assert_eq!(cursor_column(Rect::new(5, 0, 10, 1), 0, 20), 14);
    assert_eq!(cursor_column(Rect::new(5, 0, 0, 1), 3, 2), 3);
    assert_eq!(cursor_column(Rect::new(5, 0, 100, 1), 0, 65_536), 6);
    assert_eq!(suffix_width("refresh: 15s", " NORMAL ", 80), 22);
    assert_eq!(suffix_width("refresh: 15s", " NORMAL ", 10), 10);
}

#[test]
fn without_a_message_the_keys_are_shown() {
    assert_eq!(
        app(1).normal_status(),
        (
            " NORMAL ",
            "j/k: select  |  Ctrl-d/Ctrl-u: scroll  |  Ctrl-Tab: next tab  |  :q: quit".to_owned()
        )
    );
}

#[test]
fn triage_tabs_show_panels_from_the_selected_one_on() {
    let mut app = app(3);
    for workflow in &mut app.workflows {
        workflow.run_status = RunStatus::Failure;
    }
    let Effect::Triage { workflows, .. } = app.start_triage() else {
        panic!("expected a triage");
    };
    assert_eq!(workflows.len(), 3);
    assert_eq!(
        app.normal_status().1,
        "Analyzing scheduled failures, jobs, steps, and logs..."
    );
    app.finish_triage(Ok(vec![
        findings(0, "shared.test"),
        findings(1, "shared.test"),
        findings(2, "own.test"),
    ]));
    app.select_next(1);

    let screen = app.render(SCREEN, 0);

    assert_eq!(screen.tab_titles, [" Tab 1 ", " Triage "]);
    assert_eq!(app.pane_areas, [(0, AREA)]);
    let Body::Triage {
        summary,
        summary_area,
        panels,
    } = screen.body
    else {
        panic!("expected a triage");
    };
    assert_eq!(
        summary.to_string(),
        "Failed in multiple workflows:\n  shared.test\n    - Workflow 0\n    - Workflow 1"
    );
    assert!(summary.lines[0].bold);
    assert!(!summary.lines[1].bold);
    assert_eq!(summary_area, Rect::new(0, 1, 100, 6));
    assert_eq!(panels.len(), 2);
    assert_eq!(panels[0].title, " Workflow 1 ");
    assert_eq!(panels[0].area, Rect::new(0, 7, 100, 7));
    assert!(panels[0].selected);
    assert_eq!(panels[1].title, " Workflow 2 ");
    assert_eq!(panels[1].area, Rect::new(0, 14, 100, 7));
    assert!(!panels[1].selected);
    assert_eq!(panels[1].text, triage_text(Some(&findings(2, "own.test"))));
}

#[test]
fn a_triage_without_findings_says_so() {
    let mut app = app(1);
    app.tabs[0].is_triage = true;
    app.workflows.clear();
    app.triage_running = true;
    let Body::NoTriage { title, message } = app.render(SCREEN, 0).body else {
        panic!("expected no findings");
    };
    assert_eq!(title, " owner/repository ");
    assert_eq!(message, "Triaging failing workflows...");
    app.triage_running = false;
    let Body::NoTriage { message, .. } = app.render(SCREEN, 0).body else {
        panic!("expected no findings");
    };
    assert_eq!(message, "No failing scheduled workflows were found.");
}

#[test]
fn drawing_may_move_the_first_row() {
    let mut app = app(3);
    app.table_drawn(0, Some(2), 1);
    assert_eq!(app.active_view().table_state.selected(), Some(2));
    assert_eq!(app.active_view().table_state.offset, 1);
}

#[test]
fn panels_are_as_high_as_their_wrapped_lines() {
    assert_eq!(block_height(&vec![0, 78, 79, 200], 80), 9);
    assert_eq!(block_height(&vec![], 80), 2);
    assert_eq!(block_height(&vec![5], 0), 7);
    assert_eq!(block_height(&vec![70_000], 3), 65_535);
    let missing = triage_text(None);
    assert_eq!(missing.to_string(), "(triage details unavailable)");
    let mut wide = triage_text(None);
    wide.lines[0].text = "日本語".to_owned();
    assert_eq!(gh_actui::report::triage_block_height(&wide, 5), 4);
}

#[test]
fn panels_are_stacked_as_far_as_there_is_room() {
    let (summary, panels) = triage_panels(AREA, 30, &vec![4, 5]);
    assert_eq!(summary, AREA);
    assert!(panels.is_empty());
    let (summary, panels) = triage_panels(AREA, 5, &vec![10, 0, 10, 3]);
    assert_eq!(summary, Rect::new(0, 1, 100, 5));
    assert_eq!(
        panels,
        [
            Rect::new(0, 6, 100, 10),
            Rect::new(0, 16, 100, 1),
            Rect::new(0, 17, 100, 4),
        ]
    );
}

#[test]
fn tests_are_read_from_lit_summaries() {
    let names = lit_test_names(
        "S :: early\nFailed Tests (1):\n  S :: a\nnoise\n\n  S :: lost\nUnexpectedly Passed Tests (2):\n S ::  b :: c \n** end\n S :: d",
    );
    assert_eq!(
        names,
        [
            (TestOutcome::Failed, "a".to_owned()),
            (TestOutcome::UnexpectedlyPassed, "b :: c".to_owned()),
        ]
    );
}

#[test]
fn loads_that_fail_are_told_of() {
    let mut app = app(2);
    app.refresh_workflows();
    app.handle_load_event(LoadEvent::Discovered(vec![workflow(0), workflow(1)]), 0);
    assert_eq!(
        app.message.as_deref(),
        Some("2 workflows discovered; loading run status...")
    );
    app.handle_load_event(
        LoadEvent::WorkflowFailed {
            id: 1,
            name: "Workflow 1".to_owned(),
            error: "boom".to_owned(),
        },
        0,
    );
    assert_eq!(
        app.message.as_deref(),
        Some("E484: Could not load status for Workflow 1: boom")
    );
    assert_eq!(app.loaded_status_count, 1);
    app.handle_load_event(LoadEvent::Complete, 5_000);
    assert_eq!(
        app.message.as_deref(),
        Some("2 workflows refreshed; 1 workflow statuses failed")
    );
    assert_eq!(app.next_refresh, 20_000);
    app.refresh_workflows();
    app.handle_load_event(LoadEvent::Fatal("offline".to_owned()), 0);
    assert_eq!(app.message.as_deref(), Some("E484: offline"));
    app.refresh_workflows();
    app.handle_load_event(LoadEvent::Stopped, 0);
    assert_eq!(
        app.message.as_deref(),
        Some("E484: workflow loading stopped unexpectedly")
    );
    assert!(!app.is_loading());
}
