use chrono::{DateTime, Duration, Utc};
use gh_actui::cache::{
    run_cache_key, CacheEntry, CacheFile, CachedRun, CachedWorkflowRuns, RunCache, Timestamp,
};
use gh_actui::fetch::{load_workflow_status, page_address, status_loaded, RunFetch, RunPage};
use gh_actui::github::{active_workflows, RunCounts, RunMetrics, RunStatus, Workflow};
use gh_actui::lit::{
    detailed_lit_test_name, extract_lit_summary, extract_lit_test_names, has_schedule_trigger,
    strip_lit_test_suffix, strip_log_timestamp,
};
use gh_actui::repository::Repository;
use gh_actui::response::{
    fetch_page_conditional, header_value, parse_page_response, split_http_response,
    successful_stdout, Error, GhOutput, PageResponse,
};
use gh_actui::runs::{
    merge_runs, prune_runs, record_run, summarize_runs, RunSummary, RUNS_PER_PAGE,
};
use gh_actui::triage::{
    collect_failed_jobs, report, Answer, FailedJob, Findings, Job, JobSearch, JobStep,
    ScheduledSearch, Stage, Triage,
};

fn instant(time: DateTime<Utc>) -> Timestamp {
    i128::from(time.timestamp_nanos_opt().unwrap())
}

fn time() -> DateTime<Utc> {
    "2026-09-23T12:00:00Z".parse().unwrap()
}

fn now() -> Timestamp {
    instant(time())
}

fn ago(age: Duration) -> Timestamp {
    instant(time() - age)
}

fn run(status: &str, conclusion: Option<&str>, age: Duration) -> CachedRun {
    CachedRun {
        id: None,
        status: Some(status.to_owned()),
        conclusion: conclusion.map(str::to_owned),
        event: None,
        created_at: ago(age),
    }
}

fn known(id: u64, status: &str, conclusion: Option<&str>, age: Duration) -> CachedRun {
    CachedRun {
        id: Some(id),
        ..run(status, conclusion, age)
    }
}

fn scheduled(id: u64, event: &str, status: &str, conclusion: Option<&str>) -> CachedRun {
    CachedRun {
        event: Some(event.to_owned()),
        ..known(id, status, conclusion, Duration::zero())
    }
}

/// Fetches the runs of a workflow, with every request answered by `answer`.
fn fetch_run_status_with(
    runs_path: &str,
    now: Timestamp,
    cached: &CachedWorkflowRuns,
    mut answer: impl FnMut(&str, Option<&str>) -> RunPage,
) -> (RunSummary, CachedWorkflowRuns) {
    let mut fetch = RunFetch::new(runs_path.to_owned(), now, cached.clone());
    loop {
        let (path, validator) = fetch.request();
        if let Some(outcome) = fetch.step(answer(&path, validator.as_deref())) {
            return outcome;
        }
    }
}

fn page(runs: Vec<CachedRun>) -> RunPage {
    RunPage::Runs { runs, etag: None }
}

fn workflow(id: u64, name: &str, state: &str) -> Workflow {
    Workflow {
        id,
        name: name.to_owned(),
        path: format!(".github/workflows/{name}.yml"),
        state: state.to_owned(),
        run_status: RunStatus::Other,
        is_in_progress: false,
        run_metrics: RunMetrics::default(),
    }
}

fn output(success: bool, stdout: &[u8], stderr: &[u8]) -> GhOutput {
    GhOutput {
        success,
        status: "exit code: 1".to_owned(),
        stdout: stdout.to_vec(),
        stderr: stderr.to_vec(),
    }
}

#[test]
fn parse_workflows_combines_paginated_responses() {
    let pages = vec![
        vec![workflow(1, "Build", "active")],
        vec![workflow(2, "Test", "active")],
    ];

    let workflows = active_workflows(&pages);

    assert_eq!(workflows.len(), 2);
    assert_eq!(workflows[0].name, "Build");
    assert_eq!(workflows[1].id, 2);
}

#[test]
fn parse_workflows_excludes_inactive_workflows() {
    let pages = vec![vec![
        workflow(1, "Build", "active"),
        workflow(2, "Old Build", "disabled_manually"),
        workflow(3, "Fork Build", "disabled_fork"),
    ]];

    let workflows = active_workflows(&pages);

    assert_eq!(workflows.len(), 1);
    assert_eq!(workflows[0].name, "Build");
}

#[test]
fn parse_gh_output_reports_api_failure() {
    let error = successful_stdout(output(false, b"", b"HTTP 404: Not Found")).unwrap_err();

    assert!(matches!(error, Error::Request(message) if message == "HTTP 404: Not Found"));
}

#[test]
fn parse_gh_output_reports_status_when_stderr_is_empty() {
    let error = successful_stdout(output(false, b"", b"")).unwrap_err();

    assert!(
        matches!(error, Error::Request(message) if message == "gh exited with status exit code: 1")
    );
}

#[test]
fn successful_output_is_handed_on() {
    assert_eq!(
        successful_stdout(output(true, b"\xff[]", b"warning")).unwrap(),
        b"\xff[]"
    );
}

#[test]
fn summarize_runs_uses_latest_completed_run() {
    let runs = vec![
        run("completed", Some("success"), Duration::hours(1)),
        run("completed", Some("failure"), Duration::hours(2)),
        run("completed", Some("failure"), Duration::hours(3)),
    ];

    let summary = summarize_runs(&runs, now());

    assert_eq!(summary.run_status, RunStatus::Success);
}

#[test]
fn summarize_runs_marks_any_in_progress_run() {
    let runs = vec![
        run("in_progress", None, Duration::minutes(5)),
        run("completed", Some("success"), Duration::hours(1)),
    ];

    let summary = summarize_runs(&runs, now());

    assert!(summary.is_in_progress);
    assert_eq!(summary.run_status, RunStatus::Success);
}

#[test]
fn summarize_runs_uses_other_without_completed_run() {
    let summary = summarize_runs(&vec![run("queued", None, Duration::minutes(5))], now());

    assert_eq!(summary.run_status, RunStatus::Other);
    assert!(!summary.is_in_progress);
}

#[test]
fn summarize_runs_counts_completed_runs_in_time_windows() {
    let runs = vec![
        run("completed", Some("success"), Duration::hours(2)),
        run("completed", Some("failure"), Duration::days(3)),
        run("completed", Some("cancelled"), Duration::days(10)),
        run("in_progress", None, Duration::minutes(5)),
        run("completed", Some("success"), Duration::days(15)),
    ];

    let summary = summarize_runs(&runs, now());

    assert_eq!(
        summary.run_metrics.last_24_hours,
        RunCounts {
            passed: 1,
            failed: 0,
            total: 1
        }
    );
    assert_eq!(
        summary.run_metrics.last_7_days,
        RunCounts {
            passed: 1,
            failed: 1,
            total: 2
        }
    );
    assert_eq!(
        summary.run_metrics.last_14_days,
        RunCounts {
            passed: 1,
            failed: 1,
            total: 3
        }
    );
}

#[test]
fn time_windows_hold_their_first_instant() {
    let nanosecond = Duration::nanoseconds(1);
    let runs = vec![
        run("completed", Some("success"), Duration::hours(24)),
        run("completed", Some("success"), Duration::hours(24) + nanosecond),
        run("completed", Some("failure"), Duration::days(7)),
        run("completed", Some("failure"), Duration::days(14)),
        run("completed", Some("failure"), Duration::days(14) + nanosecond),
    ];

    let metrics = summarize_runs(&runs, now()).run_metrics;

    assert_eq!(metrics.last_24_hours.total, 1);
    assert_eq!(metrics.last_7_days.total, 3);
    assert_eq!(metrics.last_14_days.total, 4);
    assert_eq!(metrics.last_14_days.failed, 2);
}

#[test]
fn runs_are_counted_by_their_conclusion() {
    let mut counts = RunCounts::default();
    for conclusion in [Some("success"), Some("failure"), Some("skipped"), None] {
        record_run(&mut counts, &conclusion.map(str::to_owned));
    }

    assert_eq!(
        counts,
        RunCounts {
            passed: 1,
            failed: 1,
            total: 4
        }
    );
}

#[test]
fn fetch_run_status_pages_unfiltered_results_until_cutoff_and_completion() {
    let recent_queued = (0..RUNS_PER_PAGE)
        .map(|_| run("queued", None, Duration::hours(1)))
        .collect::<Vec<_>>();
    let old_completed = vec![run("completed", Some("failure"), Duration::days(15))];
    let mut responses = vec![page(recent_queued), page(old_completed)].into_iter();
    let mut requested_paths = Vec::new();

    let (summary, _) = fetch_run_status_with(
        "repos/owner/repo/actions/workflows/42/runs?per_page=100",
        now(),
        &CachedWorkflowRuns::default(),
        |path, _| {
            requested_paths.push(path.to_owned());
            responses.next().unwrap()
        },
    );

    assert_eq!(
        requested_paths,
        [
            "repos/owner/repo/actions/workflows/42/runs?per_page=100&page=1",
            "repos/owner/repo/actions/workflows/42/runs?per_page=100&page=2"
        ]
    );
    assert!(requested_paths.iter().all(|path| !path.contains("created")));
    assert_eq!(summary.run_status, RunStatus::Failure);
    assert_eq!(summary.run_metrics.last_14_days.total, 0);
}

#[test]
fn fetch_run_status_stops_after_full_page_crosses_cutoff() {
    let mut runs = (0..RUNS_PER_PAGE - 1)
        .map(|_| run("completed", Some("success"), Duration::hours(1)))
        .collect::<Vec<_>>();
    runs.push(run("completed", Some("failure"), Duration::days(15)));
    let mut request_count = 0;

    let (summary, _) = fetch_run_status_with(
        "runs?per_page=100",
        now(),
        &CachedWorkflowRuns::default(),
        |_, _| {
            request_count += 1;
            page(runs.clone())
        },
    );

    assert_eq!(request_count, 1);
    assert_eq!(summary.run_metrics.last_14_days.total, 99);
}

#[test]
fn fetch_run_status_reuses_cache_when_first_page_is_unchanged() {
    let cached = CachedWorkflowRuns {
        etag: Some("W/\"abc\"".to_owned()),
        runs: vec![
            run("completed", Some("success"), Duration::hours(1)),
            run("completed", Some("failure"), Duration::days(2)),
        ],
    };
    let mut validators = Vec::new();

    let (summary, updated) =
        fetch_run_status_with("runs?per_page=100", now(), &cached, |_, etag| {
            validators.push(etag.map(str::to_owned));
            RunPage::NotModified
        });

    assert_eq!(validators, [Some("W/\"abc\"".to_owned())]);
    assert_eq!(summary.run_status, RunStatus::Success);
    assert_eq!(summary.run_metrics.last_7_days.total, 2);
    assert_eq!(updated.etag.as_deref(), Some("W/\"abc\""));
}

#[test]
fn persisted_cache_supplies_the_validator_for_the_next_process() {
    let key = run_cache_key("owner/repository", 7);
    let mut cache = RunCache::new();
    cache.insert(
        key.clone(),
        CachedWorkflowRuns {
            etag: Some("W/\"abc\"".to_owned()),
            runs: vec![run("completed", Some("success"), Duration::hours(1))],
        },
    );

    // A later process only ever sees the cache through the file, so the
    // validator has to survive being written and read.
    let (version, entries) = cache.contents();
    let reloaded = RunCache::from_file(CacheFile::Parsed {
        version,
        entries: entries
            .iter()
            .map(|entry| CacheEntry {
                key: entry.key.clone(),
                runs: entry.runs.clone(),
            })
            .collect(),
    });
    let cached = reloaded.get(&key);
    let mut validators = Vec::new();
    let (summary, _) = fetch_run_status_with("runs?per_page=100", now(), &cached, |_, etag| {
        validators.push(etag.map(str::to_owned));
        RunPage::NotModified
    });

    assert_eq!(validators, [Some("W/\"abc\"".to_owned())]);
    assert_eq!(summary.run_status, RunStatus::Success);
}

#[test]
fn fetch_run_status_stops_at_history_already_cached_as_completed() {
    let history = (0..RUNS_PER_PAGE)
        .map(|index| {
            known(
                index as u64,
                "completed",
                Some("success"),
                Duration::hours(index as i64 + 1),
            )
        })
        .collect::<Vec<_>>();
    let cached = CachedWorkflowRuns {
        etag: Some("W/\"stale\"".to_owned()),
        runs: history.clone(),
    };
    let mut request_count = 0;

    let (summary, updated) = fetch_run_status_with("runs?per_page=100", now(), &cached, |_, _| {
        request_count += 1;
        RunPage::Runs {
            runs: history.clone(),
            etag: Some("W/\"fresh\"".to_owned()),
        }
    });

    // A full page of runs already cached as completed means there is no
    // newer history to discover, so paging stops immediately.
    assert_eq!(request_count, 1);
    assert_eq!(summary.run_metrics.last_14_days.total, RUNS_PER_PAGE as u32);
    assert_eq!(updated.etag.as_deref(), Some("W/\"fresh\""));
}

#[test]
fn fetch_run_status_stops_once_a_page_reaches_known_runs() {
    // A new run pushes older history down, but the rest of the page is
    // already cached, so one request is enough.
    let history = (1..RUNS_PER_PAGE)
        .map(|index| {
            known(
                index as u64,
                "completed",
                Some("success"),
                Duration::hours(index as i64 + 1),
            )
        })
        .collect::<Vec<_>>();
    let mut runs = vec![known(
        9_001,
        "completed",
        Some("failure"),
        Duration::minutes(2),
    )];
    runs.extend(history.clone());
    let cached = CachedWorkflowRuns {
        etag: None,
        runs: history,
    };
    let mut request_count = 0;

    let (summary, updated) = fetch_run_status_with("runs?per_page=100", now(), &cached, |_, _| {
        request_count += 1;
        page(runs.clone())
    });

    assert_eq!(request_count, 1);
    assert_eq!(summary.run_status, RunStatus::Failure);
    assert_eq!(updated.runs.len(), RUNS_PER_PAGE);
    assert_eq!(updated.runs[0].id, Some(9_001));
}

#[test]
fn fetch_run_status_keeps_paging_past_cached_runs_that_were_unsettled() {
    let cached = CachedWorkflowRuns {
        etag: None,
        runs: vec![
            known(1, "completed", Some("success"), Duration::hours(1)),
            // Still running when it was cached, so a refresh must reach it
            // again to notice that it finished.
            known(2, "in_progress", None, Duration::days(3)),
        ],
    };
    let first_page = (0..RUNS_PER_PAGE)
        .map(|_| known(1, "completed", Some("success"), Duration::hours(1)))
        .collect::<Vec<_>>();
    let second_page = vec![known(2, "completed", Some("failure"), Duration::days(3))];
    let mut responses = vec![page(first_page), page(second_page)].into_iter();
    let mut request_count = 0;

    let (_, updated) = fetch_run_status_with("runs?per_page=100", now(), &cached, |_, _| {
        request_count += 1;
        responses.next().unwrap()
    });

    assert_eq!(request_count, 2);
    let refreshed = updated.runs.iter().find(|run| run.id == Some(2)).unwrap();
    assert_eq!(refreshed.status.as_deref(), Some("completed"));
    assert_eq!(refreshed.conclusion.as_deref(), Some("failure"));
}

#[test]
fn fetch_run_status_merges_new_runs_ahead_of_cached_history() {
    let cached = CachedWorkflowRuns {
        etag: None,
        runs: vec![known(1, "completed", Some("success"), Duration::days(1))],
    };
    let runs = vec![known(2, "completed", Some("failure"), Duration::minutes(5))];

    let (summary, updated) = fetch_run_status_with("runs?per_page=100", now(), &cached, |_, _| {
        page(runs.clone())
    });

    assert_eq!(updated.runs.len(), 2);
    assert_eq!(updated.runs[0].id, Some(2));
    assert_eq!(summary.run_status, RunStatus::Failure);
    assert_eq!(summary.run_metrics.last_7_days.total, 2);
}

#[test]
fn fetch_run_status_keeps_newest_completed_run_older_than_the_metrics_window() {
    // The status column shows the last completed run even when the only
    // completed run predates the 14-day metrics window.
    let cached = CachedWorkflowRuns {
        etag: Some("W/\"abc\"".to_owned()),
        runs: vec![
            run("queued", None, Duration::hours(1)),
            run("completed", Some("failure"), Duration::days(20)),
            run("completed", Some("success"), Duration::days(30)),
        ],
    };

    let (summary, updated) = fetch_run_status_with("runs?per_page=100", now(), &cached, |_, _| {
        RunPage::NotModified
    });

    assert_eq!(summary.run_status, RunStatus::Failure);
    assert_eq!(summary.run_metrics.last_14_days.total, 0);
    assert_eq!(updated.runs.len(), 2);
    assert!(updated
        .runs
        .iter()
        .all(|run| run.conclusion.as_deref() != Some("success")));
}

#[test]
fn fetch_run_status_drops_cached_runs_older_than_the_window() {
    let cached = CachedWorkflowRuns {
        etag: Some("W/\"abc\"".to_owned()),
        runs: vec![
            run("completed", Some("success"), Duration::hours(1)),
            run("completed", Some("success"), Duration::days(20)),
        ],
    };

    let (summary, updated) = fetch_run_status_with("runs?per_page=100", now(), &cached, |_, _| {
        RunPage::NotModified
    });

    assert_eq!(updated.runs.len(), 1);
    assert_eq!(summary.run_metrics.last_14_days.total, 1);
}

#[test]
fn fetch_run_status_only_sends_a_validator_for_the_first_page() {
    let cached = CachedWorkflowRuns {
        etag: Some("W/\"abc\"".to_owned()),
        runs: Vec::new(),
    };
    let first_page = (0..RUNS_PER_PAGE)
        .map(|_| run("queued", None, Duration::hours(1)))
        .collect::<Vec<_>>();
    let second_page = vec![run("completed", Some("success"), Duration::days(20))];
    let mut responses = vec![page(first_page), page(second_page)].into_iter();
    let mut validators = Vec::new();

    fetch_run_status_with("runs?per_page=100", now(), &cached, |_, etag| {
        validators.push(etag.map(str::to_owned));
        responses.next().unwrap()
    });

    assert_eq!(validators, [Some("W/\"abc\"".to_owned()), None]);
}

/// A history of runs, one each hour, of which the newest ones are still in progress.
fn history(count: u64, open: u64, start: DateTime<Utc>) -> Vec<CachedRun> {
    (0..count)
        .rev()
        .map(|id| CachedRun {
            id: Some(id),
            status: Some(if id + open >= count {
                "in_progress".to_owned()
            } else {
                "completed".to_owned()
            }),
            conclusion: Some(if id % 3 == 0 {
                "failure".to_owned()
            } else {
                "success".to_owned()
            }),
            event: None,
            created_at: instant(start + Duration::hours(id as i64)),
        })
        .collect()
}

/// Fetches a history page by page, and counts the pages.
fn fetch_history(
    history: &[CachedRun],
    now: Timestamp,
    cached: &CachedWorkflowRuns,
) -> (RunSummary, CachedWorkflowRuns, usize) {
    let mut pages = 0;
    let (summary, updated) = fetch_run_status_with("runs?per_page=100", now, cached, |_, _| {
        let start = pages * RUNS_PER_PAGE;
        pages += 1;
        page(
            history
                .iter()
                .skip(start)
                .take(RUNS_PER_PAGE)
                .cloned()
                .collect(),
        )
    });
    (summary, updated, pages)
}

#[test]
fn a_refresh_comes_to_what_the_whole_history_comes_to() {
    let start = time() - Duration::days(30);
    let at = |hours: i64| instant(start + Duration::hours(hours));
    let nothing = CachedWorkflowRuns::default();
    let early = history(400, 150, start);
    let (_, cached, pages) = fetch_history(&early, at(400), &nothing);
    assert_eq!(pages, 4);
    assert_eq!(cached, prune_runs(&early, at(400 - 14 * 24), None));

    for (count, open, pages) in [(400, 150, 2), (420, 10, 2), (500, 0, 3), (720, 5, 4)] {
        let late = history(count, open, start);
        let now = at(count as i64);
        let (summary, updated, requested) = fetch_history(&late, now, &cached);
        let (whole_summary, whole, _) = fetch_history(&late, now, &nothing);
        assert_eq!(updated, whole);
        assert_eq!(summary, whole_summary);
        assert_eq!(
            updated,
            prune_runs(&late, at(count as i64 - 14 * 24), None)
        );
        assert_eq!(requested, pages);
    }
}

#[test]
fn an_unchanged_first_page_repeats_what_was_found() {
    let start = time() - Duration::days(30);
    let at = |hours: i64| instant(start + Duration::hours(hours));
    let runs = history(600, 0, start);
    let (_, cached, _) = fetch_history(&runs, at(600), &CachedWorkflowRuns::default());

    let (summary, updated) =
        fetch_run_status_with("runs?per_page=100", at(700), &cached, |_, _| {
            RunPage::NotModified
        });

    let (whole_summary, whole, _) =
        fetch_history(&runs, at(700), &CachedWorkflowRuns::default());
    assert_eq!(updated, whole);
    assert_eq!(summary, whole_summary);
}

#[test]
fn merging_prefers_fresh_runs() {
    let cached = vec![
        known(1, "queued", None, Duration::hours(3)),
        run("completed", None, Duration::hours(4)),
    ];
    let fetched = vec![
        known(2, "queued", None, Duration::hours(1)),
        known(1, "completed", Some("success"), Duration::hours(3)),
        run("completed", None, Duration::hours(4)),
    ];

    let merged = merge_runs(&cached, &fetched);

    assert_eq!(merged.len(), 3);
    assert_eq!(merged[0].id, Some(2));
    assert_eq!(merged[1].id, Some(1));
    assert_eq!(merged[1].status.as_deref(), Some("completed"));
    assert_eq!(merged[2].id, None);
}

#[test]
fn merging_keeps_the_fetched_copy_of_a_run_without_identifier() {
    let cached = vec![run("queued", None, Duration::hours(4))];
    let fetched = vec![run("queued", None, Duration::hours(4))];

    assert_eq!(merge_runs(&cached, &fetched), fetched);
    assert_eq!(merge_runs(&cached, &Vec::new()), Vec::new());
}

#[test]
fn pruning_sorts_and_keeps_the_newest_completed_run() {
    let runs = vec![
        known(1, "completed", Some("success"), Duration::days(30)),
        known(2, "queued", None, Duration::days(16)),
        known(3, "queued", None, Duration::days(14)),
        known(4, "completed", Some("failure"), Duration::days(20)),
        known(5, "queued", None, Duration::days(2)),
    ];

    let entry = prune_runs(&runs, ago(Duration::days(14)), Some("tag".to_owned()));

    let ids: Vec<_> = entry.runs.iter().map(|run| run.id.unwrap()).collect();
    assert_eq!(ids, [5, 3, 4]);
    assert_eq!(entry.etag.as_deref(), Some("tag"));
    let again = prune_runs(&entry.runs, ago(Duration::days(14)), None);
    assert_eq!(again.runs, entry.runs);
}

#[test]
fn statuses_are_loaded_by_way_of_the_cache() {
    let repository = Repository::parse("owner/repository").unwrap();
    let build = workflow(7, "Build", "active");
    let mut cache = RunCache::new();
    let mut fetch = load_workflow_status(&repository, &build, &cache, now());
    assert_eq!(
        fetch.request(),
        (
            "repos/owner/repository/actions/workflows/7/runs?per_page=100&page=1".to_owned(),
            None
        )
    );
    let (summary, updated) = fetch
        .step(RunPage::Runs {
            runs: vec![
                known(2, "in_progress", None, Duration::minutes(1)),
                known(1, "completed", Some("failure"), Duration::hours(1)),
            ],
            etag: Some("tag".to_owned()),
        })
        .unwrap();

    let loaded = status_loaded(&repository, &build, &mut cache, summary, updated);

    assert_eq!(loaded.name, "Build");
    assert_eq!(loaded.run_status, RunStatus::Failure);
    assert!(loaded.is_in_progress);
    assert_eq!(loaded.run_metrics.last_24_hours.failed, 1);
    let next = load_workflow_status(&repository, &build, &cache, now());
    assert_eq!(next.request().1.as_deref(), Some("tag"));
    assert_eq!(page_address("runs?x", 12), "runs?x&page=12");
}

#[test]
fn split_http_response_separates_status_headers_and_body() {
    let raw =
        b"HTTP/2.0 200 OK\r\nETag: W/\"abc\"\r\nX-RateLimit-Remaining: 42\r\n\r\n{\"ok\":true}";

    let (status, headers, body) = split_http_response(raw);

    assert_eq!(status, Some(200));
    assert_eq!(header_value(&headers, "etag").as_deref(), Some("W/\"abc\""));
    assert_eq!(
        header_value(&headers, "x-ratelimit-remaining").as_deref(),
        Some("42")
    );
    assert_eq!(body, b"{\"ok\":true}");
}

#[test]
fn split_http_response_handles_newline_only_separators() {
    let raw = b"HTTP/1.1 304 Not Modified\nETag: W/\"abc\"\n\n";

    let (status, headers, _) = split_http_response(raw);

    assert_eq!(status, Some(304));
    assert_eq!(header_value(&headers, "etag").as_deref(), Some("W/\"abc\""));
}

#[test]
fn responses_are_split_whatever_they_hold() {
    let (status, headers, body) = split_http_response(b"HTTP/2 x\nA: 1\nplain\na:2\nB : c:d");
    assert_eq!(status, None);
    assert_eq!(header_value(&headers, "a").as_deref(), Some("2"));
    assert_eq!(header_value(&headers, "b").as_deref(), Some("c:d"));
    assert_eq!(header_value(&headers, "plain"), None);
    assert!(body.is_empty());

    let (status, _, body) = split_http_response(b"HTTP/2 +200\n\nfirst\r\n\r\nsecond");
    assert_eq!(status, Some(200));
    assert_eq!(body, b"second");

    let (status, _, body) = split_http_response(b"HTTP/2 70000\n\n\xff\xfe");
    assert_eq!(status, None);
    assert_eq!(body, "\u{fffd}\u{fffd}".as_bytes());
}

#[test]
fn parse_page_response_reports_not_modified_even_though_gh_exits_nonzero() {
    // `gh api` treats 304 as a failure, but for a conditional request it
    // means the cached copy is still current.
    let output = output(
        false,
        b"HTTP/2.0 304 Not Modified\r\nETag: W/\"abc\"\r\n\r\n",
        b"gh: HTTP 304",
    );

    assert_eq!(
        parse_page_response(output, now()).unwrap(),
        PageResponse::NotModified
    );
}

#[test]
fn successful_pages_are_handed_on_with_their_validator() {
    let output = output(true, b"HTTP/2.0 200 OK\r\nETag: W/\"abc\"\r\n\r\n{}", b"");

    assert_eq!(
        parse_page_response(output, now()).unwrap(),
        PageResponse::Modified {
            body: b"{}".to_vec(),
            etag: Some("W/\"abc\"".to_owned())
        }
    );
}

#[test]
fn parse_page_response_reports_rate_limit_with_reset_guidance() {
    let reset = (time() + Duration::minutes(30)).timestamp();
    let output = output(
        false,
        format!(
            "HTTP/2.0 403 Forbidden\r\nX-RateLimit-Remaining: 0\r\nX-RateLimit-Resource: core\r\nX-RateLimit-Reset: {reset}\r\n\r\n{{}}"
        )
        .as_bytes(),
        b"gh: API rate limit exceeded for user ID 1 (HTTP 403)",
    );

    let error = parse_page_response(output, now()).unwrap_err();

    let Error::RateLimited(detail) = error else {
        panic!("expected a rate limit error, got {error:?}");
    };
    assert!(detail.contains("for core requests"), "{detail}");
    assert_eq!(detail, " for core requests; resets in 30m");
}

fn refused(headers: &str, stderr: &[u8]) -> Error {
    let stdout = format!("HTTP/2.0 403 Forbidden\r\n{headers}\r\n\r\n{{}}");
    parse_page_response(output(false, stdout.as_bytes(), stderr), now()).unwrap_err()
}

#[test]
fn rate_limits_tell_when_they_end() {
    let second = |offset: i64| (time().timestamp() + offset).to_string();
    let detail = |reset: &str| {
        let headers = format!("X-RateLimit-Remaining: 0\r\nX-RateLimit-Reset: {reset}");
        match refused(&headers, b"") {
            Error::RateLimited(detail) => detail,
            other => panic!("expected a rate limit error, got {other:?}"),
        }
    };

    assert_eq!(detail(&second(119)), "; resets in 1m");
    assert_eq!(detail(&second(59)), "; resets in 0m");
    assert_eq!(detail(&second(-600)), "; resets in 0m");
    assert_eq!(detail("soon"), "");
    assert_eq!(detail("9223372036854775807"), "");
    assert_eq!(detail("8210266876799"), "; resets in 136807945199m");
    assert_eq!(detail("8210266876800"), "");
    assert_eq!(detail("-8334601228800"), "; resets in 0m");
    assert_eq!(detail("-8334601228801"), "");
}

#[test]
fn a_message_may_tell_of_a_rate_limit() {
    assert_eq!(
        refused("X-RateLimit-Remaining: 5", b"Secondary RATE Limit hit"),
        Error::RateLimited(String::new())
    );
    assert_eq!(
        refused("Retry-After: -3", b"rate limit"),
        Error::RateLimited("; retry in -3s".to_owned())
    );
    assert_eq!(
        refused("A: b", b""),
        Error::Request("gh exited with status exit code: 1".to_owned())
    );
}

#[test]
fn parse_page_response_keeps_non_rate_limited_forbidden_errors() {
    let output = output(
        false,
        b"HTTP/2.0 403 Forbidden\r\nX-RateLimit-Remaining: 4999\r\n\r\n{}",
        b"gh: Resource not accessible by integration (HTTP 403)",
    );

    let error = parse_page_response(output, now()).unwrap_err();

    assert!(
        matches!(error, Error::Request(message) if message.contains("not accessible")),
        "unexpected error variant"
    );
}

#[test]
fn parse_page_response_prefers_retry_after_header() {
    let output = output(
        false,
        b"HTTP/2.0 429 Too Many Requests\r\nRetry-After: 45\r\nX-RateLimit-Remaining: 0\r\n\r\n{}",
        b"gh: You have exceeded a secondary rate limit (HTTP 429)",
    );

    let error = parse_page_response(output, now()).unwrap_err();

    let Error::RateLimited(detail) = error else {
        panic!("expected a rate limit error, got {error:?}");
    };
    assert!(detail.contains("retry in 45s"), "{detail}");
}

#[test]
fn pages_are_requested_with_a_validator_where_there_is_one() {
    assert_eq!(
        fetch_page_conditional("runs&page=1", &Some("W/\"abc\"".to_owned())),
        [
            "api",
            "-i",
            "-X",
            "GET",
            "runs&page=1",
            "-H",
            "If-None-Match: W/\"abc\""
        ]
    );
    assert_eq!(
        fetch_page_conditional("runs&page=2", &None),
        ["api", "-i", "-X", "GET", "runs&page=2"]
    );
}

#[test]
fn request_errors_say_what_went_wrong() {
    let reason = || "reason".to_owned();
    assert_eq!(
        Error::Start(reason()).message(),
        "could not start GitHub CLI: reason"
    );
    assert_eq!(
        Error::Request(reason()).message(),
        "GitHub CLI request failed: reason"
    );
    assert_eq!(
        Error::RateLimited("; retry in 1s".to_owned()).message(),
        "GitHub API rate limit reached; retry in 1s"
    );
    assert_eq!(
        Error::InvalidResponse(reason()).message(),
        "GitHub CLI returned invalid Actions data: reason"
    );
    assert_eq!(
        Error::StatusWorker.message(),
        "a workflow status worker stopped unexpectedly"
    );
}

fn find_failed_scheduled_run(pages: Vec<Vec<CachedRun>>) -> Option<u64> {
    let mut search = ScheduledSearch::find_failed_scheduled_run("runs?per_page=100".to_owned());
    for page in &pages {
        if search.step(page) {
            return search.result();
        }
    }
    panic!("the search goes on");
}

#[test]
fn scheduled_triage_ignores_newer_non_scheduled_runs() {
    let run = find_failed_scheduled_run(vec![vec![
        scheduled(1, "push", "completed", Some("failure")),
        scheduled(2, "schedule", "completed", Some("success")),
    ]]);

    assert_eq!(run, None);
}

#[test]
fn scheduled_triage_uses_prior_failure_while_latest_run_is_in_flight() {
    let run = find_failed_scheduled_run(vec![vec![
        scheduled(10, "schedule", "in_progress", None),
        scheduled(9, "schedule", "completed", Some("failure")),
    ]]);

    assert_eq!(run, Some(9));
}

#[test]
fn scheduled_triage_pages_on_until_a_completed_run_is_found() {
    let pushes = (0..RUNS_PER_PAGE)
        .map(|id| scheduled(id as u64, "push", "completed", Some("failure")))
        .collect::<Vec<_>>();
    let failed = vec![scheduled(500, "schedule", "completed", Some("failure"))];

    assert_eq!(
        find_failed_scheduled_run(vec![pushes.clone(), failed]),
        Some(500)
    );
    assert_eq!(find_failed_scheduled_run(vec![pushes, Vec::new()]), None);
}

#[test]
fn schedule_trigger_detection_only_matches_top_level_on_block() {
    assert!(has_schedule_trigger(
        "name: Scheduled\non:\n  push:\n  schedule:\n    - cron: '0 0 * * *'\njobs:\n  test:\n"
    ));
    assert!(!has_schedule_trigger(
        "name: Push\non:\n  push:\njobs:\n  schedule:\n    runs-on: ubuntu-latest\n"
    ));
    assert!(!has_schedule_trigger(
        "name: Text\non: push\njobs:\n  test:\n    steps:\n      - run: echo schedule:\n"
    ));
}

#[test]
fn schedules_are_keys_of_the_block_itself() {
    assert!(!has_schedule_trigger(
        "on:\n  workflow_dispatch:\n    inputs:\n      schedule:\n        type: string\n"
    ));
    assert!(has_schedule_trigger(
        "on:\n  workflow_dispatch:\n    inputs:\n      schedule:\n  schedule:\n"
    ));
    assert!(has_schedule_trigger("on:\n  schedule: # nightly\n    - cron: '0 0 * * *'\n"));
    assert!(has_schedule_trigger(
        "on: # triggers\n\n    # when to run\n# always\n  schedule: [{cron: '0 0 * * *'}]\n"
    ));
    assert!(has_schedule_trigger("\"on\":\n  push:\n  'schedule':\n"));
    assert!(!has_schedule_trigger("on:\n  schedules:\n"));
    assert!(!has_schedule_trigger("on:\n  # schedule:\n  push:\n"));
    assert!(!has_schedule_trigger("on:\nschedule:\n"));
}

#[test]
fn lit_summary_uses_last_failure_section_and_strips_timestamps() {
    let log = "\
2026-09-23T10:00:00.000Z Failed Tests (1):\n\
2026-09-23T10:00:00.001Z   Suite :: old.test\n\
2026-09-23T10:01:00.000Z Failed Tests (2):\n\
2026-09-23T10:01:00.001Z   Suite :: one.test\n\
2026-09-23T10:01:00.002Z   Suite :: two.test\n\
2026-09-23T10:01:00.003Z ##[error]Process completed\n";

    assert_eq!(
        extract_lit_summary(log).as_deref(),
        Some("Failed Tests (2):\n  Suite :: one.test\n  Suite :: two.test")
    );
}

#[test]
fn lit_summary_includes_failed_and_unexpectedly_passed_tests() {
    let log = "\
2026-09-23T12:00:00Z Testing Time: 1.23s
2026-09-23T12:00:01Z Unexpectedly Passed Tests (1):
2026-09-23T12:00:02Z   Suite :: unexpected.test
2026-09-23T12:00:03Z
2026-09-23T12:00:04Z Failed Tests (2):
2026-09-23T12:00:05Z   Suite :: failed-one.test
2026-09-23T12:00:06Z   Suite :: failed-two.test
2026-09-23T12:00:07Z ##[error]Process completed with exit code 1.";

    assert_eq!(
        extract_lit_summary(log).as_deref(),
        Some(
            "Unexpectedly Passed Tests (1):\n  Suite :: unexpected.test\n\nFailed Tests (2):\n  Suite :: failed-one.test\n  Suite :: failed-two.test"
        )
    );
}

#[test]
fn lit_summary_includes_unexpectedly_passed_tests_without_failures() {
    let log = "\
Testing Time: 1.23s
Unexpectedly Passed Tests (1):
  Suite :: unexpected.test
##[error]Process completed with exit code 1.";

    assert_eq!(
        extract_lit_summary(log).as_deref(),
        Some("Unexpectedly Passed Tests (1):\n  Suite :: unexpected.test")
    );
}

#[test]
fn lit_summaries_begin_where_the_log_says() {
    assert_eq!(extract_lit_summary("nothing\nhere"), None);
    assert_eq!(
        extract_lit_summary("Testing Time: 1s\n  Passed: 3\n\n  \n").as_deref(),
        Some("Testing Time: 1s\n  Passed: 3")
    );
    assert_eq!(
        extract_lit_summary("Failed Tests (1):\na\nUnexpectedly Passed Tests (1):\nb").as_deref(),
        Some("Failed Tests (1):\na\nUnexpectedly Passed Tests (1):\nb")
    );
    assert_eq!(
        extract_lit_summary(
            "Unexpectedly Passed Tests (1):\n  S :: a.test\nFailed Tests (1):\n  S :: b.test"
        )
        .as_deref(),
        Some("Unexpectedly Passed Tests (1):\n  S :: a.test\nFailed Tests (1):\n  S :: b.test")
    );
}

#[test]
fn lit_test_names_use_summary_sections_and_detailed_result_fallbacks() {
    let log = "\
Testing Time: 1.23s
Unexpectedly Passed Tests (1):
  Suite :: unexpected.test
Failed Tests (1):
  Suite :: failed.test
FAIL: Suite :: fallback-failed.test (1 of 20)
XPASS: Suite :: fallback-unexpected.test (2 of 20)
##[error]Process completed with exit code 1.";

    let (failed, unexpectedly_passed) = extract_lit_test_names(log);

    assert_eq!(failed, ["failed.test", "fallback-failed.test"]);
    assert_eq!(
        unexpectedly_passed,
        ["fallback-unexpected.test", "unexpected.test"]
    );
}

#[test]
fn log_lines_lose_their_timestamps_alone() {
    assert_eq!(strip_log_timestamp("2026-09-23T12:00:00Z  x y"), " x y");
    assert_eq!(strip_log_timestamp("2026-09-23T12:00:00Z"), "");
    assert_eq!(strip_log_timestamp("2026-09-23 12:00"), "2026-09-23 12:00");
    assert_eq!(strip_log_timestamp("2026/09/23T12:00:00Z x"), "2026/09/23T12:00:00Z x");
    assert_eq!(strip_log_timestamp("ääää-ä-ääääääääääZ x"), "ääää-ä-ääääääääääZ x");
}

#[test]
fn test_names_lose_their_count() {
    assert_eq!(strip_lit_test_suffix(" a/b.test (3 of 20) "), "a/b.test");
    assert_eq!(strip_lit_test_suffix("a (b)"), "a (b)");
    assert_eq!(strip_lit_test_suffix("a (x) (1 of 2)"), "a (x)");
    assert_eq!(
        detailed_lit_test_name("FAIL: Suite :: a.test (1 of 2)", "FAIL:").as_deref(),
        Some("a.test")
    );
    assert_eq!(detailed_lit_test_name("FAIL: a.test", "FAIL:"), None);
    assert_eq!(detailed_lit_test_name("PASS: S :: a", "FAIL:"), None);
}

fn job(id: u64, name: &str, conclusion: Option<&str>, steps: &[(&str, Option<&str>)]) -> Job {
    Job {
        id,
        name: name.to_owned(),
        conclusion: conclusion.map(str::to_owned),
        steps: steps
            .iter()
            .map(|(name, conclusion)| JobStep {
                name: (*name).to_owned(),
                conclusion: conclusion.map(str::to_owned),
            })
            .collect(),
    }
}

fn some_jobs() -> Vec<Job> {
    vec![
        job(1, "fine", Some("success"), &[]),
        job(2, "waiting", None, &[("Build", Some("failure"))]),
        job(
            3,
            "linux",
            Some("failure"),
            &[
                ("Set up", Some("success")),
                ("Later", None),
                ("Run HLSL Tests", Some("failure")),
                ("Clean up", Some("cancelled")),
            ],
        ),
        job(4, "macos", Some("cancelled"), &[("Set up", Some("skipped"))]),
        job(5, "neutral", Some("neutral"), &[]),
    ]
}

#[test]
fn failed_jobs_are_collected_with_their_first_failed_step() {
    let mut failures = Vec::new();
    collect_failed_jobs(&some_jobs(), &mut failures);

    let found: Vec<_> = failures
        .iter()
        .map(|failure| {
            (
                failure.job_id,
                failure.job_name.as_str(),
                failure.step_name.as_deref(),
            )
        })
        .collect();
    assert_eq!(
        found,
        [
            (3, "linux", Some("Run HLSL Tests")),
            (4, "macos", None)
        ]
    );

    let repository = Repository::parse("owner/repository").unwrap();
    let mut search = JobSearch::fetch_failed_jobs(&repository, 9);
    let full = (0..RUNS_PER_PAGE as u64)
        .map(|id| job(id, "job", Some("failure"), &[]))
        .collect();
    assert!(!search.step(&full));
    assert_eq!(search.page_number, 2);
    assert!(search.step(&some_jobs()));
    assert_eq!(search.failures.len(), RUNS_PER_PAGE + 2);
}

#[test]
fn a_report_says_what_was_found() {
    let failure = |job_id: u64, name: &str, step: Option<&str>| FailedJob {
        job_id,
        job_name: name.to_owned(),
        step_name: step.map(str::to_owned),
    };
    let mut findings = Findings::new();
    findings.add_log("Failed Tests (1):\n  S :: b.test");
    findings.add_log("Failed Tests (2):\n  S :: b.test\n  S :: a.test");
    let failures = vec![
        failure(3, "linux", Some("Run HLSL Tests")),
        failure(4, "macos", None),
    ];

    let found = report(7, &failures, &findings);

    assert_eq!(found.workflow_id, 7);
    assert_eq!(found.failed_jobs, "linux, macos");
    assert_eq!(found.failed_steps, "Run HLSL Tests, (no step info)");
    assert_eq!(found.failed_tests, ["a.test", "b.test"]);
    assert!(found.unexpectedly_passed_tests.is_empty());
    assert_eq!(
        found.lit_summary,
        "Failed Tests (1):\n  S :: b.test\n\nFailed Tests (2):\n  S :: b.test\n  S :: a.test"
    );
    let nothing = report(7, &Vec::new(), &Findings::new());
    assert_eq!(nothing.failed_jobs, "(no failed jobs reported)");
    assert_eq!(nothing.failed_steps, "");
}

#[test]
fn a_triage_asks_for_contents_runs_jobs_and_logs() {
    let repository = Repository::parse("owner/repository").unwrap();
    let mut triage = Triage::triage_workflow(&repository, &workflow(7, "Build", "active"));
    assert_eq!(
        triage.request(),
        [
            "api",
            "-H",
            "Accept: application/vnd.github.raw+json",
            "repos/owner/repository/contents/.github/workflows/Build.yml"
        ]
    );
    triage = triage.step(Answer::Contents(b"on:\n  schedule:\n".to_vec()));
    assert_eq!(
        triage.request(),
        [
            "api",
            "-X",
            "GET",
            "repos/owner/repository/actions/workflows/7/runs?per_page=100&page=1"
        ]
    );
    triage = triage.step(Answer::Runs(vec![scheduled(
        9,
        "schedule",
        "completed",
        Some("failure"),
    )]));
    assert_eq!(
        triage.request(),
        [
            "api",
            "-X",
            "GET",
            "repos/owner/repository/actions/runs/9/jobs?per_page=100&page=1"
        ]
    );
    triage = triage.step(Answer::Jobs(some_jobs()));
    assert_eq!(
        triage.request(),
        ["api", "repos/owner/repository/actions/jobs/3/logs"]
    );
    triage = triage.step(Answer::Log(
        b"Failed Tests (1):\n  S :: \xff.test\n".to_vec(),
    ));

    let Stage::Done(Some(found)) = triage.stage else {
        panic!("expected findings");
    };
    assert_eq!(found.failed_jobs, "linux, macos");
    assert_eq!(found.failed_tests, ["\u{fffd}.test"]);
}

#[test]
fn a_triage_leaves_out_workflows_without_a_schedule_or_a_failure() {
    let repository = Repository::parse("owner/repository").unwrap();
    let start = || Triage::triage_workflow(&repository, &workflow(7, "Build", "active"));

    let unscheduled = start().step(Answer::Contents(b"on: push\n".to_vec()));
    assert!(matches!(unscheduled.stage, Stage::Done(None)));

    let succeeded = start()
        .step(Answer::Contents(b"on:\n  schedule:\n".to_vec()))
        .step(Answer::Runs(vec![scheduled(
            9,
            "schedule",
            "completed",
            Some("success"),
        )]));
    assert!(matches!(succeeded.stage, Stage::Done(None)));

    let without_jobs = start()
        .step(Answer::Contents(b"on:\n  schedule:\n".to_vec()))
        .step(Answer::Runs(vec![scheduled(
            9,
            "schedule",
            "completed",
            Some("failure"),
        )]))
        .step(Answer::Jobs(Vec::new()));
    let Stage::Done(Some(found)) = without_jobs.stage else {
        panic!("expected findings");
    };
    assert_eq!(found.failed_jobs, "(no failed jobs reported)");
}
