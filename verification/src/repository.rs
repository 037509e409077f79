//! Which repository is browsed, and the paths of its REST endpoints.
use std::str::FromStr;

use vstd::prelude::*;
use vstd::string::*;

use crate::text::{self, CharClass};

verus! {

/// A GitHub repository.
#[derive(Debug, PartialEq, Eq)]
pub struct Repository {
    pub owner: String,
    pub name: String,
}

/// What a [`Repository`] stands for.
#[verifier::ext_equal]
pub struct RepositoryModel {
    pub owner: Seq<char>,
    pub name: Seq<char>,
}

impl View for Repository {
    type V = RepositoryModel;

    open spec fn view(&self) -> RepositoryModel {
        RepositoryModel { owner: self.owner@, name: self.name@ }
    }
}

/// Why a text names no repository.
#[derive(Clone, Copy, Debug, PartialEq, Eq, Structural)]
pub enum ParseRepositoryError {
    InvalidFormat,
    UnsupportedHost,
}

impl ParseRepositoryError {
    /// The error in words.
    pub open spec fn words(self) -> Seq<char> {
        match self {
            ParseRepositoryError::InvalidFormat => "repository must be a GitHub URL or OWNER/REPO"@,
            ParseRepositoryError::UnsupportedHost => "repository URL must use github.com"@,
        }
    }

    /// Puts the error in words.
    pub fn message(&self) -> (r: String)
        ensures
            r@ == self.words(),
    {
        match self {
            ParseRepositoryError::InvalidFormat => "repository must be a GitHub URL or OWNER/REPO".to_owned(),
            ParseRepositoryError::UnsupportedHost => "repository URL must use github.com".to_owned(),
        }
    }
}

/// The endpoint of a repository that `tail` names.
pub open spec fn endpoint(r: RepositoryModel, tail: Seq<char>) -> Seq<char> {
    "repos/"@ + r.owner + "/"@ + r.name + tail
}

/// The outcome of reading a repository, by what it stands for.
pub open spec fn outcome(r: Result<Repository, ParseRepositoryError>) -> Result<
    RepositoryModel,
    ParseRepositoryError,
> {
    match r {
        Ok(repository) => Ok(repository@),
        Err(error) => Err(error),
    }
}

/// How a text of the form `OWNER/REPO` reads.
pub open spec fn owner_name(value: Seq<char>) -> Result<RepositoryModel, ParseRepositoryError> {
    let parts = text::pieces(text::trim_end_of(value, CharClass::Is('/')), CharClass::Is('/'));
    if parts.len() != 2 || parts[0].len() == 0 || parts[1].len() == 0 {
        Err(ParseRepositoryError::InvalidFormat)
    } else {
        let name = text::trim_end_text(parts[1], ".git"@);
        if name.len() == 0 {
            Err(ParseRepositoryError::InvalidFormat)
        } else {
            Ok(RepositoryModel { owner: parts[0], name })
        }
    }
}

/// The host of a URL and the segments of its path, where it has them.
pub type UrlParts = (Option<String>, Option<Vec<String>>);

/// What [`UrlParts`] hold.
pub open spec fn url_view(parts: Option<UrlParts>) -> Option<
    (Option<Seq<char>>, Option<Seq<Seq<char>>>),
> {
    match parts {
        Some(parts) => Some(
            (
                text::view_opt(parts.0),
                match parts.1 {
                    Some(segments) => Some(text::views(segments@)),
                    None => None,
                },
            ),
        ),
        None => None,
    }
}

/// The segments of a path that are not empty.
pub open spec fn filled(segments: Seq<Seq<char>>) -> Seq<Seq<char>> {
    segments.filter(|s: Seq<char>| s.len() > 0)
}

/// How a URL reads, given its parts; `None` stands for a text that is no URL.
pub open spec fn url_repository(
    parts: Option<(Option<Seq<char>>, Option<Seq<Seq<char>>>)>,
) -> Result<RepositoryModel, ParseRepositoryError> {
    match parts {
        None => Err(ParseRepositoryError::InvalidFormat),
        Some((host, segments)) => {
            if host != Some("github.com"@) {
                Err(ParseRepositoryError::UnsupportedHost)
            } else {
                match segments {
                    None => Err(ParseRepositoryError::InvalidFormat),
                    Some(segments) => {
                        let found = filled(segments);
                        if found.len() != 2 {
                            Err(ParseRepositoryError::InvalidFormat)
                        } else {
                            owner_name(found[0] + "/"@ + found[1])
                        }
                    },
                }
            }
        },
    }
}

/// The parts of the URL that a text writes: what `Url::parse`, `Url::host_str` and
/// `Url::path_segments` say of it.
pub uninterp spec fn url_parts(value: Seq<char>) -> Option<
    (Option<Seq<char>>, Option<Seq<Seq<char>>>),
>;

/// `url::Url::parse`, with `host_str` and `path_segments` of the URL that it gives: what they
/// return depends on the text alone, and there is no result where `parse` reports an error.
#[verifier::external_body]
fn read_url(value: &str) -> (r: Option<UrlParts>)
    ensures
        url_view(r) == url_parts(value@),
{
    let url = url::Url::parse(value).ok()?;
    let host = url.host_str().map(str::to_owned);
    let segments = url.path_segments().map(|segments| segments.map(str::to_owned).collect());
    Some((host, segments))
}

/// Whether a text is read as a URL.
pub open spec fn is_url(value: Seq<char>) -> bool {
    text::begins_with(value, "https://"@) || text::begins_with(value, "http://"@)
}

/// How a text names a repository.
pub open spec fn read_repository(value: Seq<char>) -> Result<
    RepositoryModel,
    ParseRepositoryError,
> {
    if is_url(value) {
        url_repository(url_parts(value))
    } else {
        owner_name(value)
    }
}

/// Reads a repository off the parts of a URL.
pub fn repository_from_url(parts: Option<UrlParts>) -> (r: Result<Repository, ParseRepositoryError>)
    ensures
        outcome(r) == url_repository(url_view(parts)),
{
    let (host, segments) = match parts {
        Some(parts) => parts,
        None => {
            return Err(ParseRepositoryError::InvalidFormat);
        },
    };
    let supported = match &host {
        Some(host) => text::same(host.as_str(), "github.com"),
        None => false,
    };
    if !supported {
        return Err(ParseRepositoryError::UnsupportedHost);
    }
    let segments = match segments {
        Some(segments) => segments,
        None => {
            return Err(ParseRepositoryError::InvalidFormat);
        },
    };
    let ghost all = text::views(segments@);
    let mut found: Vec<String> = Vec::new();
    let mut i: usize = 0;
    assert(text::views(found@) =~= filled(all.take(0)));
    while i < segments.len()
        invariant
            i <= segments@.len(),
            all == text::views(segments@),
            text::views(found@) == filled(all.take(i as int)),
        decreases segments@.len() - i,
    {
        assert(all.take(i + 1).drop_last() =~= all.take(i as int));
        assert(all.take(i + 1).last() == segments@[i as int]@);
        reveal(Seq::filter);
        if !segments[i].as_str().is_empty() {
            let ghost before = text::views(found@);
            found.push(segments[i].clone());
            assert(text::views(found@) =~= before.push(segments@[i as int]@));
        }
        i = i + 1;
    }
    assert(all.take(i as int) =~= all);
    if found.len() != 2 {
        return Err(ParseRepositoryError::InvalidFormat);
    }
    assert(text::views(found@)[0] == found@[0]@ && text::views(found@)[1] == found@[1]@);
    let value = text::concat(text::concat(found[0].as_str(), "/").as_str(), found[1].as_str());
    parse_owner_name(value.as_str())
}

/// Reads a repository off a URL.
pub fn parse_url(value: &str) -> (r: Result<Repository, ParseRepositoryError>)
    ensures
        outcome(r) == url_repository(url_parts(value@)),
{
    repository_from_url(read_url(value))
}

/// Reads a repository off a text of the form `OWNER/REPO`.
pub fn parse_owner_name(value: &str) -> (r: Result<Repository, ParseRepositoryError>)
    ensures
        outcome(r) == owner_name(value@),
{
    let parts = text::split(
        text::trim_end_matches(value, CharClass::Is('/')).as_str(),
        CharClass::Is('/'),
    );
    let ghost all = text::views(parts@);
    if parts.len() != 2 {
        return Err(ParseRepositoryError::InvalidFormat);
    }
    assert(all[0] == parts@[0]@ && all[1] == parts@[1]@);
    if parts[0].as_str().is_empty() || parts[1].as_str().is_empty() {
        return Err(ParseRepositoryError::InvalidFormat);
    }
    let name = text::trim_end_matches_text(parts[1].as_str(), ".git");
    if name.as_str().is_empty() {
        return Err(ParseRepositoryError::InvalidFormat);
    }
    let owner = parts[0].clone();
    Ok(Repository { owner, name })
}

impl Repository {
    /// Reads a repository off a GitHub URL or a text of the form `OWNER/REPO`.
    pub fn parse(value: &str) -> (r: Result<Repository, ParseRepositoryError>)
        ensures
            outcome(r) == read_repository(value@),
    {
        if text::starts_with(value, "https://") || text::starts_with(value, "http://") {
            return parse_url(value);
        }
        parse_owner_name(value)
    }

    fn path(&self, tail: &str) -> (r: String)
        ensures
            r@ == endpoint(self@, tail@),
    {
        let mut r = "repos/".to_owned();
        r.append(self.owner.as_str());
        r.append("/");
        r.append(self.name.as_str());
        r.append(tail);
        r
    }

    /// The endpoint that lists the workflows.
    pub fn workflows_api_path(&self) -> (r: String)
        ensures
            r@ == endpoint(self@, "/actions/workflows?per_page=100"@),
    {
        self.path("/actions/workflows?per_page=100")
    }

    /// The endpoint that lists the runs of a workflow.
    pub fn workflow_runs_api_path(&self, workflow_id: u64) -> (r: String)
        ensures
            r@ == endpoint(
                self@,
                "/actions/workflows/"@ + text::decimal(workflow_id as nat) + "/runs?per_page=100"@,
            ),
    {
        let mut tail = text::concat("/actions/workflows/", text::number_text(workflow_id).as_str());
        tail.append("/runs?per_page=100");
        self.path(tail.as_str())
    }

    /// The endpoint that holds the contents of a file.
    pub fn workflow_content_api_path(&self, workflow_path: &str) -> (r: String)
        ensures
            r@ == endpoint(self@, "/contents/"@ + workflow_path@),
    {
        self.path(text::concat("/contents/", workflow_path).as_str())
    }

    /// The endpoint that lists the jobs of a run.
    pub fn run_jobs_api_path(&self, run_id: u64) -> (r: String)
        ensures
            r@ == endpoint(
                self@,
                "/actions/runs/"@ + text::decimal(run_id as nat) + "/jobs?per_page=100"@,
            ),
    {
        let mut tail = text::concat("/actions/runs/", text::number_text(run_id).as_str());
        tail.append("/jobs?per_page=100");
        self.path(tail.as_str())
    }

    /// The endpoint that holds the log of a job.
    pub fn job_logs_api_path(&self, job_id: u64) -> (r: String)
        ensures
            r@ == endpoint(self@, "/actions/jobs/"@ + text::decimal(job_id as nat) + "/logs"@),
    {
        let mut tail = text::concat("/actions/jobs/", text::number_text(job_id).as_str());
        tail.append("/logs");
        self.path(tail.as_str())
    }

    /// The repository in the form `OWNER/REPO`.
    pub fn to_string(&self) -> (r: String)
        ensures
            r@ == self@.full_name(),
    {
        let mut r = text::concat(self.owner.as_str(), "/");
        r.append(self.name.as_str());
        r
    }
}

impl RepositoryModel {
    /// The repository in the form `OWNER/REPO`.
    pub open spec fn full_name(self) -> Seq<char> {
        self.owner + "/"@ + self.name
    }
}

impl Clone for Repository {
    fn clone(&self) -> (r: Self)
        ensures
            r == *self,
    {
        Repository { owner: self.owner.clone(), name: self.name.clone() }
    }
}

impl FromStr for Repository {
    type Err = ParseRepositoryError;

    /// Reads a repository off a GitHub URL or a text of the form `OWNER/REPO`.
    fn from_str(value: &str) -> (r: Result<Self, ParseRepositoryError>)
        ensures
            outcome(r) == read_repository(value@),
    {
        Repository::parse(value)
    }
}

} // verus!
