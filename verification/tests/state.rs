use gh_actui::github::{RunMetrics, RunStatus, Workflow};
use gh_actui::layout::{SplitDirection, ViewLayout};
use gh_actui::repository::Repository;
use gh_actui::response;
use gh_actui::state::{
    are_sound, Error, StoredViewState, ViewPane, ViewState, ViewTab, CURRENT_VERSION,
};

fn named(id: u64, name: &str, run_status: RunStatus, is_in_progress: bool) -> Workflow {
    Workflow {
        id,
        name: name.to_owned(),
        path: format!("{name}.yml"),
        state: "active".to_owned(),
        run_status,
        is_in_progress,
        run_metrics: RunMetrics::default(),
    }
}

fn state() -> ViewState {
    let workflows = vec![
        named(42, "Build", RunStatus::Success, true),
        named(7, "Test", RunStatus::Failure, false),
    ];
    ViewState::new(Repository::parse("owner/repository").unwrap(), &workflows)
}

fn stored(version: u32, workflow_ids: Vec<u64>, workflows: Vec<u64>) -> StoredViewState {
    StoredViewState {
        version,
        repository: Repository::parse("owner/repository").unwrap(),
        workflow_ids,
        workflows,
        tabs: Vec::new(),
        active_tab: 0,
    }
}

#[test]
fn view_state_round_trips_as_json() {
    let restored = state().into_stored();

    assert_eq!(restored.version, CURRENT_VERSION);
    assert_eq!(restored.repository, state().repository);
    assert_eq!(restored.workflow_ids, vec![42, 7]);
    assert!(restored.workflows.is_empty());
}

#[test]
fn resolve_workflows_uses_current_data_in_saved_order() {
    let saved = state();
    let workflows = vec![
        named(7, "Current Test", RunStatus::Success, true),
        named(42, "Current Build", RunStatus::Failure, false),
    ];

    let resolved = saved.resolve_workflows(workflows);

    assert_eq!(resolved[0].name, "Current Build");
    assert_eq!(resolved[1].name, "Current Test");
    assert!(resolved[1].is_in_progress);
}

#[test]
fn resolving_leaves_out_what_is_gone_and_takes_the_last_of_equals() {
    let mut saved = state();
    saved.workflow_ids = vec![7, 9, 42, 7];
    let workflows = vec![
        named(7, "Early", RunStatus::Other, false),
        named(7, "Late", RunStatus::Other, false),
        named(42, "Build", RunStatus::Other, false),
        named(5, "New", RunStatus::Other, false),
    ];

    let resolved = saved.resolve_workflows(workflows);

    let names: Vec<_> = resolved.iter().map(|workflow| workflow.name.as_str()).collect();
    assert_eq!(names, ["Late", "Build"]);
}

#[test]
fn view_state_saves_and_loads_file() {
    let restored = ViewState::from_stored(state().into_stored()).unwrap();

    assert_eq!(restored, state());
}

#[test]
fn view_state_loads_ids_from_legacy_workflow_objects() {
    let restored = ViewState::from_stored(stored(1, Vec::new(), vec![42])).unwrap();

    assert_eq!(restored.workflow_ids, vec![42]);
    assert_eq!(restored.tabs.len(), 1);
    assert_eq!(restored.tabs[0].name, None);
    assert_eq!(restored.tabs[0].workflow_ids, vec![42]);
    assert_eq!(restored.tabs[0].additional_views, vec![]);
    assert_eq!(restored.active_tab, 0);
}

#[test]
fn workflow_ids_count_before_legacy_objects() {
    let restored = ViewState::from_stored(stored(1, vec![5, 6], vec![42])).unwrap();

    assert_eq!(restored.workflow_ids, vec![5, 6]);
    assert_eq!(restored.tabs[0].workflow_ids, vec![5, 6]);
}

#[test]
fn view_state_rejects_unsupported_version() {
    let error = ViewState::from_stored(stored(2, Vec::new(), Vec::new())).unwrap_err();

    assert!(matches!(error, Error::UnsupportedVersion { found: 2 }));
    assert_eq!(
        error.message(),
        "state file version 2 is not supported (expected 1)"
    );
}

#[test]
fn a_session_with_tabs_survives_its_file() {
    let pane = ViewPane {
        workflow_ids: vec![7],
        filter: Some("status:failure".to_owned()),
        sort: Some("name:desc".to_owned()),
        selected_workflow_id: Some(7),
    };
    let mut tab = ViewTab::plain(vec![42, 7], Some(42));
    tab.name = Some("Failures".to_owned());
    tab.additional_views.push(pane);
    tab.layout = ViewLayout::Split {
        direction: SplitDirection::Vertical,
        ratio: 333,
        first: Box::new(ViewLayout::Pane { index: 0 }),
        second: Box::new(ViewLayout::Pane { index: 1 }),
    };
    tab.active_view = 1;
    assert!(are_sound(&vec![tab.clone()]));
    let workflows = vec![
        named(42, "Build", RunStatus::Success, true),
        named(7, "Test", RunStatus::Failure, false),
    ];
    let session = |tabs: Vec<ViewTab>| {
        ViewState::with_tabs(
            Repository::parse("owner/repository").unwrap(),
            &workflows,
            tabs,
            1,
        )
    };
    let tabs = vec![ViewTab::plain(vec![42], None), tab];

    let restored = ViewState::from_stored(session(tabs.clone()).into_stored()).unwrap();

    assert_eq!(restored, session(tabs));
}

#[test]
fn tabs_that_cannot_be_shown_are_told_apart() {
    assert!(!are_sound(&Vec::new()));
    let mut tab = ViewTab::plain(vec![1], None);
    assert!(are_sound(&vec![tab.clone()]));
    tab.layout = ViewLayout::Pane { index: 1 };
    assert!(!are_sound(&vec![tab.clone()]));
    tab.layout = ViewLayout::Split {
        direction: SplitDirection::Horizontal,
        ratio: 1001,
        first: Box::new(ViewLayout::Pane { index: 0 }),
        second: Box::new(ViewLayout::Pane { index: 0 }),
    };
    assert!(!are_sound(&vec![tab]));
}

#[test]
fn state_errors_say_what_went_wrong() {
    let path = || "view.json".to_owned();
    let source = || "reason".to_owned();
    assert_eq!(
        Error::Read {
            path: path(),
            source: source()
        }
        .message(),
        "could not read state file view.json: reason"
    );
    assert_eq!(
        Error::Deserialize {
            path: path(),
            source: source()
        }
        .message(),
        "state file view.json is not valid JSON: reason"
    );
    assert_eq!(
        Error::Serialize(source()).message(),
        "could not serialize view state: reason"
    );
    assert_eq!(
        Error::Write {
            path: path(),
            source: source()
        }
        .message(),
        "could not write state file view.json: reason"
    );
    assert_eq!(
        Error::Refresh(response::Error::StatusWorker).message(),
        "could not refresh saved workflows: a workflow status worker stopped unexpectedly"
    );
}
