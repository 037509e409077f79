use gh_actui::repository::{
    parse_owner_name, parse_url, repository_from_url, ParseRepositoryError, Repository,
};

#[test]
fn from_str_parses_github_url() {
    let repository: Repository = "https://github.com/llvm/offload-test-suite"
        .parse()
        .unwrap();

    assert_eq!(repository.to_string(), "llvm/offload-test-suite");
}

#[test]
fn from_str_parses_owner_and_name() {
    let repository: Repository = "llvm/offload-test-suite".parse().unwrap();

    assert_eq!(repository.to_string(), "llvm/offload-test-suite");
}

#[test]
fn from_str_removes_git_suffix_and_trailing_slash() {
    let repository: Repository = "https://github.com/llvm/offload-test-suite.git/"
        .parse()
        .unwrap();

    assert_eq!(repository.to_string(), "llvm/offload-test-suite");
}

#[test]
fn from_str_rejects_non_github_host() {
    let error = "https://example.com/llvm/offload-test-suite"
        .parse::<Repository>()
        .unwrap_err();

    assert_eq!(error, ParseRepositoryError::UnsupportedHost);
}

#[test]
fn from_str_rejects_missing_repository() {
    let error = "llvm".parse::<Repository>().unwrap_err();

    assert_eq!(error, ParseRepositoryError::InvalidFormat);
}

#[test]
fn from_str_rejects_empty_name_after_git_suffix() {
    let error = "llvm/.git".parse::<Repository>().unwrap_err();

    assert_eq!(error, ParseRepositoryError::InvalidFormat);
}

#[test]
fn urls_need_exactly_an_owner_and_a_name() {
    assert_eq!(
        parse_url("https://github.com/llvm"),
        Err(ParseRepositoryError::InvalidFormat)
    );
    assert_eq!(
        parse_url("https://github.com/llvm/project/actions"),
        Err(ParseRepositoryError::InvalidFormat)
    );
    assert_eq!(
        parse_url("https://github.com//llvm//project//?tab=readme#top")
            .unwrap()
            .to_string(),
        "llvm/project"
    );
    assert_eq!(
        parse_url("http://GitHub.com/llvm/project").unwrap().to_string(),
        "llvm/project"
    );
    assert_eq!(
        parse_url("https://"),
        Err(ParseRepositoryError::InvalidFormat)
    );
    assert_eq!(
        repository_from_url(None),
        Err(ParseRepositoryError::InvalidFormat)
    );
}

#[test]
fn url_paths_are_taken_as_they_are_encoded() {
    assert_eq!(
        parse_url("https://github.com/own er/na%20me")
            .unwrap()
            .to_string(),
        "own%20er/na%20me"
    );
}

#[test]
fn owner_and_name_may_end_in_slashes_and_git() {
    assert_eq!(
        parse_owner_name("llvm/project.git.git///")
            .unwrap()
            .to_string(),
        "llvm/project"
    );
    for value in ["", "/", "llvm/", "/project", "a/b/c", "a//b"] {
        assert_eq!(
            parse_owner_name(value),
            Err(ParseRepositoryError::InvalidFormat)
        );
    }
}

#[test]
fn api_paths_name_the_repository() {
    let repository = Repository::parse("llvm/project").unwrap();

    assert_eq!(
        repository.workflows_api_path(),
        "repos/llvm/project/actions/workflows?per_page=100"
    );
    assert_eq!(
        repository.workflow_runs_api_path(42),
        "repos/llvm/project/actions/workflows/42/runs?per_page=100"
    );
    assert_eq!(
        repository.workflow_content_api_path(".github/workflows/a.yml"),
        "repos/llvm/project/contents/.github/workflows/a.yml"
    );
    assert_eq!(
        repository.run_jobs_api_path(7),
        "repos/llvm/project/actions/runs/7/jobs?per_page=100"
    );
    assert_eq!(
        repository.job_logs_api_path(u64::MAX),
        "repos/llvm/project/actions/jobs/18446744073709551615/logs"
    );
}

#[test]
fn parse_errors_say_what_is_wrong() {
    assert_eq!(
        ParseRepositoryError::InvalidFormat.message(),
        "repository must be a GitHub URL or OWNER/REPO"
    );
    assert_eq!(
        ParseRepositoryError::UnsupportedHost.message(),
        "repository URL must use github.com"
    );
}
