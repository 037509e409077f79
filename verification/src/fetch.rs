//! Fetching the recent runs of a workflow, page by page, as far as the cache allows.
use vstd::prelude::*;
use vstd::string::*;

use crate::cache::{self, CachedModel, CachedRun, CachedWorkflowRuns, RunCache, Timestamp};
use crate::github::Workflow;
use crate::repository::{self, Repository, RepositoryModel};
use crate::runs::{self, RunSummary};
use crate::text;

verus! {

/// What the server answered a request for a page of runs.
#[derive(Debug, PartialEq, Eq)]
pub enum RunPage {
    /// The page has not changed since its validator was given out.
    NotModified,
    /// The runs of the page, and the validator of this state of it.
    Runs { runs: Vec<CachedRun>, etag: Option<String> },
}

/// A fetch of the recent runs of a workflow.
///
/// Pages are newest-first. Paging stops where a page is not full, where it reaches past the
/// fourteen days that metrics cover and a completed run was found, or where it reaches runs that
/// are already cached. Runs that were still queued or in progress when cached are the exception:
/// they may have finished since, so paging continues until it has covered them.
pub struct RunFetch {
    runs_path: String,
    now: Timestamp,
    cached: CachedWorkflowRuns,
    fetched: Vec<CachedRun>,
    etag: Option<String>,
    page_number: u64,
}

/// What a [`RunFetch`] stands for.
#[verifier::ext_equal]
pub struct FetchModel {
    pub runs_path: Seq<char>,
    pub now: Timestamp,
    pub cached: CachedModel,
    pub fetched: Seq<CachedRun>,
    pub etag: Option<Seq<char>>,
    pub page_number: nat,
}

impl View for RunFetch {
    type V = FetchModel;

    closed spec fn view(&self) -> FetchModel {
        FetchModel {
            runs_path: self.runs_path@,
            now: self.now,
            cached: self.cached@,
            fetched: self.fetched@,
            etag: text::view_opt(self.etag),
            page_number: self.page_number as nat,
        }
    }
}

/// Whether some run was created before a point in time.
pub open spec fn some_before(runs: Seq<CachedRun>, t: int) -> bool {
    exists|i: int| 0 <= i < runs.len() && (#[trigger] runs[i]).created_at < t
}

/// Whether some run is completed.
pub open spec fn some_completed(runs: Seq<CachedRun>) -> bool {
    exists|i: int| 0 <= i < runs.len() && (#[trigger] runs[i]).completed()
}

/// Whether some run is among those known.
pub open spec fn some_known(runs: Seq<CachedRun>, known: Seq<CachedRun>) -> bool {
    exists|i: int|
        0 <= i < runs.len() && (#[trigger] runs[i]).id is Some && cache::has_run(
            known,
            runs[i].id->0,
        )
}

/// The address of a page of a list.
pub open spec fn page_path(path: Seq<char>, page_number: nat) -> Seq<char> {
    path + "&page="@ + text::decimal(page_number)
}

impl FetchModel {
    /// The start of a fetch.
    pub open spec fn start(runs_path: Seq<char>, now: Timestamp, cached: CachedModel) -> FetchModel {
        FetchModel {
            runs_path,
            now,
            cached,
            fetched: Seq::empty(),
            etag: cached.etag,
            page_number: 1,
        }
    }

    /// The start of the fourteen days that metrics cover.
    pub open spec fn cutoff(self) -> int {
        self.now - 14 * runs::DAY
    }

    /// The request for the next page: its address, and for the first page the validator that
    /// is cached.
    pub open spec fn next_request(self) -> (Seq<char>, Option<Seq<char>>) {
        (
            page_path(self.runs_path, self.page_number),
            if self.page_number == 1 {
                self.etag
            } else {
                None
            },
        )
    }

    /// The fetch with one more page.
    pub open spec fn with_page(self, runs: Seq<CachedRun>, etag: Option<Seq<char>>) -> FetchModel {
        FetchModel {
            fetched: self.fetched + runs,
            etag: if self.page_number == 1 {
                etag
            } else {
                self.etag
            },
            ..self
        }
    }

    /// Whether a page is the last one that has to be fetched.
    pub open spec fn ends_with(self, runs: Seq<CachedRun>) -> bool {
        let unsettled = cache::oldest_open(self.cached.runs);
        ||| runs.len() < runs::RUNS_PER_PAGE
        ||| some_before(runs, self.cutoff()) && some_completed(self.fetched + runs)
        ||| some_known(runs, self.cached.runs) && (unsettled is None || some_before(
            runs,
            unsettled->0 + 1,
        ))
    }

    /// What the fetch comes to, with all pages fetched.
    pub open spec fn outcome(self) -> (RunSummary, CachedModel) {
        self.settled(runs::merged(self.cached.runs, self.fetched))
    }

    /// What the fetch comes to where the first page has not changed.
    pub open spec fn unchanged(self) -> (RunSummary, CachedModel) {
        self.settled(self.cached.runs)
    }

    /// What runs come to.
    pub open spec fn settled(self, all: Seq<CachedRun>) -> (RunSummary, CachedModel) {
        let kept = runs::pruned(all, self.cutoff());
        (runs::summary_of(kept, self.now), CachedModel { etag: self.etag, runs: kept })
    }
}

/// The outcome of a fetch, by what it stands for.
pub open spec fn outcome_view(r: Option<(RunSummary, CachedWorkflowRuns)>) -> Option<
    (RunSummary, CachedModel),
> {
    match r {
        Some((summary, cached)) => Some((summary, cached@)),
        None => None,
    }
}

fn any_before(runs: &Vec<CachedRun>, t: Timestamp) -> (r: bool)
    ensures
        r == some_before(runs@, t as int),
{
    let mut i: usize = 0;
    while i < runs.len()
        invariant
            i <= runs@.len(),
            forall|j: int| 0 <= j < i ==> (#[trigger] runs@[j]).created_at >= t,
        decreases runs@.len() - i,
    {
        if runs[i].created_at < t {
            assert(runs@[i as int].created_at < t);
            return true;
        }
        i = i + 1;
    }
    false
}

fn any_completed(runs: &Vec<CachedRun>) -> (r: bool)
    ensures
        r == some_completed(runs@),
{
    let mut i: usize = 0;
    while i < runs.len()
        invariant
            i <= runs@.len(),
            forall|j: int| 0 <= j < i ==> !(#[trigger] runs@[j]).completed(),
        decreases runs@.len() - i,
    {
        if runs[i].is_completed() {
            assert(runs@[i as int].completed());
            return true;
        }
        i = i + 1;
    }
    false
}

fn any_known(runs: &Vec<CachedRun>, cached: &CachedWorkflowRuns) -> (r: bool)
    ensures
        r == some_known(runs@, cached@.runs),
{
    let mut i: usize = 0;
    while i < runs.len()
        invariant
            i <= runs@.len(),
            forall|j: int|
                0 <= j < i && (#[trigger] runs@[j]).id is Some ==> !cache::has_run(
                    cached@.runs,
                    runs@[j].id->0,
                ),
        decreases runs@.len() - i,
    {
        if let Some(id) = runs[i].id {
            if cached.contains(id) {
                assert(runs@[i as int].id is Some);
                return true;
            }
        }
        i = i + 1;
    }
    false
}

/// Whether some run was created at a point in time or before it.
fn any_upto(runs: &Vec<CachedRun>, t: Timestamp) -> (r: bool)
    ensures
        r == some_before(runs@, t + 1),
{
    let mut i: usize = 0;
    while i < runs.len()
        invariant
            i <= runs@.len(),
            forall|j: int| 0 <= j < i ==> (#[trigger] runs@[j]).created_at > t,
        decreases runs@.len() - i,
    {
        if runs[i].created_at <= t {
            assert(runs@[i as int].created_at < t + 1);
            return true;
        }
        i = i + 1;
    }
    false
}

/// The address of a page of a list.
pub fn page_address(path: &str, page_number: u64) -> (r: String)
    ensures
        r@ == page_path(path@, page_number as nat),
{
    let mut r = text::concat(path, "&page=");
    r.append(text::number_text(page_number).as_str());
    r
}

impl RunFetch {
    /// Starts a fetch.
    pub fn new(runs_path: String, now: Timestamp, cached: CachedWorkflowRuns) -> (r: Self)
        ensures
            r@ == FetchModel::start(runs_path@, now, cached@),
    {
        let etag = cache::clone_text(&cached.etag);
        RunFetch { runs_path, now, cached, fetched: Vec::new(), etag, page_number: 1 }
    }

    /// The request to make next: the address of a page, and the validator to send with it.
    pub fn request(&self) -> (r: (String, Option<String>))
        ensures
            (r.0@, text::view_opt(r.1)) == self@.next_request(),
    {
        let validator = if self.page_number == 1 {
            cache::clone_text(&self.etag)
        } else {
            None
        };
        (page_address(self.runs_path.as_str(), self.page_number), validator)
    }

    /// Takes the answer to the request. Returns what the fetch comes to where no further page
    /// is needed.
    pub fn step(&mut self, page: RunPage) -> (r: Option<(RunSummary, CachedWorkflowRuns)>)
        requires
            runs::has_window(old(self)@.now),
            old(self)@.page_number < u64::MAX,
            old(self)@.cached.runs.len() + old(self)@.fetched.len() + (match page {
                RunPage::NotModified => 0,
                RunPage::Runs { runs, .. } => runs@.len(),
            }) <= u32::MAX,
        ensures
            match page {
                RunPage::NotModified => {
                    &&& outcome_view(r) == Some(old(self)@.unchanged())
                    &&& final(self)@ == old(self)@
                },
                RunPage::Runs { runs, etag } => {
                    let after = old(self)@.with_page(runs@, text::view_opt(etag));
                    if old(self)@.ends_with(runs@) {
                        &&& outcome_view(r) == Some(after.outcome())
                        &&& final(self)@ == after
                    } else {
                        &&& r is None
                        &&& final(self)@ == (FetchModel {
                            page_number: after.page_number + 1,
                            ..after
                        })
                    }
                },
            },
    {
        let cutoff = self.now - 14 * runs::DAY;
        match page {
            RunPage::NotModified => {
                proof {
                    runs::lemma_pruned_len(self.cached.runs@, cutoff as int);
                }
                let entry = runs::prune_runs(
                    &self.cached.runs,
                    cutoff,
                    cache::clone_text(&self.etag),
                );
                Some((runs::summarize_runs(&entry.runs, self.now), entry))
            },
            RunPage::Runs { runs, etag } => {
                let ghost before = self@;
                let ghost page = runs@;
                let oldest_unsettled = self.cached.oldest_unsettled();
                let page_len: usize = runs.len();
                let reached_cutoff = any_before(&runs, cutoff);
                let covered_unsettled = match oldest_unsettled {
                    Some(unsettled) => any_upto(&runs, unsettled),
                    None => true,
                };
                let reached_known_history = any_known(&runs, &self.cached);
                if self.page_number == 1 {
                    self.etag = etag;
                }
                let mut runs = runs;
                self.fetched.append(&mut runs);
                let found_completed = any_completed(&self.fetched);
                assert(self@ =~= before.with_page(page, text::view_opt(etag)));
                if page_len < runs::RUNS_PER_PAGE || (reached_cutoff && found_completed) || (
                reached_known_history && covered_unsettled) {
                    proof {
                        let all = runs::merged(self.cached.runs@, self.fetched@);
                        runs::lemma_merged_len(self.cached.runs@, self.fetched@);
                        runs::lemma_pruned_len(all, cutoff as int);
                    }
                    let merged = runs::merge_runs(&self.cached.runs, &self.fetched);
                    let entry = runs::prune_runs(&merged, cutoff, cache::clone_text(&self.etag));
                    return Some((runs::summarize_runs(&entry.runs, self.now), entry));
                }
                self.page_number = self.page_number + 1;
                None
            },
        }
    }
}

/// The address of the runs of a workflow.
pub open spec fn runs_path_of(repository: RepositoryModel, workflow_id: u64) -> Seq<char> {
    repository::endpoint(
        repository,
        "/actions/workflows/"@ + text::decimal(workflow_id as nat) + "/runs?per_page=100"@,
    )
}

/// What is cached of a workflow.
pub open spec fn cached_runs(
    cache: Map<Seq<char>, CachedModel>,
    repository: RepositoryModel,
    workflow_id: u64,
) -> CachedModel {
    let key = cache::cache_key(repository.full_name(), workflow_id);
    if cache.contains_key(key) {
        cache[key]
    } else {
        CachedModel::nothing()
    }
}

/// Starts to load the status of a workflow.
pub fn load_workflow_status(
    repository: &Repository,
    workflow: &Workflow,
    cache: &RunCache,
    now: Timestamp,
) -> (r: RunFetch)
    ensures
        r@ == FetchModel::start(
            runs_path_of(repository@, workflow.id),
            now,
            cached_runs(cache@, repository@, workflow.id),
        ),
{
    let key = cache::run_cache_key(repository.to_string().as_str(), workflow.id);
    RunFetch::new(repository.workflow_runs_api_path(workflow.id), now, cache.get(key.as_str()))
}

/// A workflow with what its runs come to.
pub open spec fn with_summary(workflow: Workflow, summary: RunSummary) -> Workflow {
    Workflow {
        run_status: summary.run_status,
        is_in_progress: summary.is_in_progress,
        run_metrics: summary.run_metrics,
        ..workflow
    }
}

/// Ends the load of the status of a workflow: its runs are cached, and the workflow is given
/// back with what they come to.
pub fn status_loaded(
    repository: &Repository,
    workflow: &Workflow,
    cache: &mut RunCache,
    summary: RunSummary,
    updated: CachedWorkflowRuns,
) -> (r: Workflow)
    ensures
        r == with_summary(*workflow, summary),
        final(cache)@ == old(cache)@.insert(
            cache::cache_key(repository@.full_name(), workflow.id),
            updated@,
        ),
{
    cache.insert(cache::run_cache_key(repository.to_string().as_str(), workflow.id), updated);
    let mut workflow = workflow.clone();
    workflow.run_status = summary.run_status;
    workflow.is_in_progress = summary.is_in_progress;
    workflow.run_metrics = summary.run_metrics;
    workflow
}

/// A refresh that finds the first page unchanged repeats what the fetch before it gave: the
/// cache then holds the complete picture.
pub proof fn law_unchanged_page_repeats_outcome(fetch: FetchModel)
    ensures
        FetchModel::start(fetch.runs_path, fetch.now, fetch.outcome().1).unchanged()
            == fetch.outcome(),
{
    let all = runs::merged(fetch.cached.runs, fetch.fetched);
    runs::law_prune_idempotent(all, fetch.cutoff());
}

} // verus!
