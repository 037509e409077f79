use gh_actui::cache::{
    run_cache_key, CacheEntry, CacheFile, CachedRun, CachedWorkflowRuns, RunCache, CACHE_VERSION,
};
use gh_actui::paths::{choose_base, command_history_path, run_cache_path, Base, Environment};

const HOUR: i128 = 3_600_000_000_000;
const NOW: i128 = 1_790_000_000_000_000_000;

fn run(id: u64, status: &str, age: i128) -> CachedRun {
    CachedRun {
        id: Some(id),
        status: Some(status.to_owned()),
        conclusion: Some("success".to_owned()),
        event: Some("schedule".to_owned()),
        created_at: NOW - age,
    }
}

/// The cache as it is found in a file that it was written to.
fn through_file(cache: &RunCache) -> CacheFile {
    let (version, entries) = cache.contents();
    CacheFile::Parsed {
        version,
        entries: entries
            .iter()
            .map(|entry| CacheEntry {
                key: entry.key.clone(),
                runs: entry.runs.clone(),
            })
            .collect(),
    }
}

#[test]
fn oldest_unsettled_ignores_completed_runs() {
    let entry = CachedWorkflowRuns {
        etag: None,
        runs: vec![
            run(1, "completed", HOUR),
            run(2, "in_progress", 2 * HOUR),
            run(3, "completed", 9 * HOUR),
        ],
    };

    assert_eq!(entry.oldest_unsettled(), Some(entry.runs[1].created_at));
}

#[test]
fn oldest_unsettled_is_none_when_all_runs_are_completed() {
    let entry = CachedWorkflowRuns {
        etag: None,
        runs: vec![run(1, "completed", HOUR)],
    };

    assert_eq!(entry.oldest_unsettled(), None);
}

#[test]
fn contains_matches_cached_runs_by_id_regardless_of_status() {
    let entry = CachedWorkflowRuns {
        etag: None,
        runs: vec![run(1, "completed", HOUR), run(2, "queued", 2 * HOUR)],
    };

    assert!(entry.contains(1));
    assert!(entry.contains(2));
    assert!(!entry.contains(3));
}

#[test]
fn cache_round_trips_through_a_file() {
    let mut cache = RunCache::new();
    cache.insert(
        run_cache_key("owner/repository", 7),
        CachedWorkflowRuns {
            etag: Some("W/\"abc\"".to_owned()),
            runs: vec![run(1, "completed", HOUR)],
        },
    );

    let loaded = RunCache::from_file(through_file(&cache));
    let entry = loaded.get(&run_cache_key("owner/repository", 7));

    assert_eq!(entry.etag.as_deref(), Some("W/\"abc\""));
    assert_eq!(entry.runs.len(), 1);
}

#[test]
fn default_cache_uses_the_current_version_so_it_survives_a_save() {
    let mut cache = RunCache::default();
    cache.insert(
        run_cache_key("owner/repository", 1),
        CachedWorkflowRuns::default(),
    );

    assert_eq!(cache.contents().0, CACHE_VERSION);
    assert!(!RunCache::from_file(through_file(&cache)).is_empty());
}

#[test]
fn load_returns_empty_cache_for_missing_file() {
    let cache = RunCache::from_file(CacheFile::Missing);

    assert!(cache.is_empty());
}

#[test]
fn load_discards_corrupt_and_outdated_cache_files() {
    let outdated = CacheFile::Parsed {
        version: 0,
        entries: vec![CacheEntry {
            key: "a".to_owned(),
            runs: CachedWorkflowRuns::default(),
        }],
    };

    assert!(RunCache::from_file(CacheFile::Corrupt).is_empty());
    assert!(RunCache::from_file(outdated).is_empty());
}

#[test]
fn a_later_entry_replaces_an_earlier_one() {
    let mut cache = RunCache::new();
    let key = || run_cache_key("owner/repository", 7);
    cache.insert(
        key(),
        CachedWorkflowRuns {
            etag: Some("old".to_owned()),
            runs: vec![run(1, "completed", HOUR)],
        },
    );
    cache.insert(
        key(),
        CachedWorkflowRuns {
            etag: Some("new".to_owned()),
            runs: Vec::new(),
        },
    );

    assert_eq!(cache.get(&key()).etag.as_deref(), Some("new"));
    assert_eq!(cache.get("other"), CachedWorkflowRuns::default());
    assert_eq!(cache.contents().1.len(), 1);
}

#[test]
fn cache_keys_tell_repositories_and_workflows_apart() {
    assert_eq!(run_cache_key("owner/repository", 7), "owner/repository#7");
    assert_ne!(run_cache_key("a#1", 1), run_cache_key("a", 11));
}

fn environment() -> Environment {
    Environment {
        given: false,
        windows: false,
        local_app_data: true,
        xdg: false,
        home: true,
    }
}

#[test]
fn files_stand_where_the_environment_says() {
    assert_eq!(
        command_history_path(environment()),
        Some((Base::Home, vec![".local", "state", "gh-actui", "history"]))
    );
    assert_eq!(
        run_cache_path(environment()),
        Some((Base::Home, vec![".cache", "gh-actui", "run-cache.json"]))
    );
    let xdg = Environment {
        xdg: true,
        ..environment()
    };
    assert_eq!(
        command_history_path(xdg),
        Some((Base::Xdg, vec!["gh-actui", "history"]))
    );
    assert_eq!(
        run_cache_path(xdg),
        Some((Base::Xdg, vec!["gh-actui", "run-cache.json"]))
    );
    let windows = Environment {
        windows: true,
        xdg: true,
        ..environment()
    };
    assert_eq!(
        run_cache_path(windows),
        Some((Base::LocalAppData, vec!["gh-actui", "run-cache.json"]))
    );
    let given = Environment {
        given: true,
        ..windows
    };
    assert_eq!(command_history_path(given), Some((Base::Given, vec![])));
    let bare_windows = Environment {
        local_app_data: false,
        ..windows
    };
    assert_eq!(choose_base(bare_windows), None);
    assert_eq!(run_cache_path(bare_windows), None);
    let bare = Environment {
        home: false,
        ..environment()
    };
    assert_eq!(command_history_path(bare), None);
}
