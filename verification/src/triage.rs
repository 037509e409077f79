//! Finding out why a scheduled workflow failed.
use vstd::prelude::*;
use vstd::string::*;

use crate::cache::{self, CachedRun};
use crate::fetch;
use crate::github::{TriageModel, Workflow, WorkflowTriage};
use crate::lit;
use crate::repository::{self, Repository, RepositoryModel};
use crate::runs;
use crate::text;

verus! {

broadcast use crate::text::lemma_views_push;

/// A job of a run.
#[derive(Debug, PartialEq, Eq)]
pub struct Job {
    pub id: u64,
    pub name: String,
    pub conclusion: Option<String>,
    pub steps: Vec<JobStep>,
}

/// A step of a job.
#[derive(Debug, PartialEq, Eq)]
pub struct JobStep {
    pub name: String,
    pub conclusion: Option<String>,
}

/// A job that failed, and the first of its steps that did, where one is known.
#[derive(Debug, PartialEq, Eq)]
pub struct FailedJob {
    pub job_id: u64,
    pub job_name: String,
    pub step_name: Option<String>,
}

/// What a [`FailedJob`] says.
#[verifier::ext_equal]
pub struct FailureModel {
    pub job_id: u64,
    pub job_name: Seq<char>,
    pub step_name: Option<Seq<char>>,
}

impl View for FailedJob {
    type V = FailureModel;

    open spec fn view(&self) -> FailureModel {
        FailureModel {
            job_id: self.job_id,
            job_name: self.job_name@,
            step_name: text::view_opt(self.step_name),
        }
    }
}

/// The failures that a list holds.
pub open spec fn failure_views(failures: Seq<FailedJob>) -> Seq<FailureModel> {
    failures.map_values(|failure: FailedJob| failure@)
}

/// Whether a step failed: it has ended otherwise than well or skipped.
pub open spec fn step_failed(step: JobStep) -> bool {
    &&& step.conclusion is Some
    &&& !cache::is_text(step.conclusion, "success"@)
    &&& !cache::is_text(step.conclusion, "skipped"@)
}

/// Whether a job failed: it has ended otherwise than well, skipped or neutral.
pub open spec fn job_failed(job: Job) -> bool {
    &&& job.conclusion is Some
    &&& !cache::is_text(job.conclusion, "success"@)
    &&& !cache::is_text(job.conclusion, "skipped"@)
    &&& !cache::is_text(job.conclusion, "neutral"@)
}

/// The name of the first step that failed.
pub open spec fn first_failed_step(steps: Seq<JobStep>) -> Option<Seq<char>>
    decreases steps.len(),
{
    if steps.len() == 0 {
        None
    } else {
        match first_failed_step(steps.drop_last()) {
            Some(name) => Some(name),
            None => if step_failed(steps.last()) {
                Some(steps.last().name@)
            } else {
                None
            },
        }
    }
}

/// The jobs that failed, in their order.
pub open spec fn failed_jobs(jobs: Seq<Job>) -> Seq<FailureModel>
    decreases jobs.len(),
{
    if jobs.len() == 0 {
        Seq::empty()
    } else {
        let before = failed_jobs(jobs.drop_last());
        let job = jobs.last();
        if job_failed(job) {
            before.push(
                FailureModel {
                    job_id: job.id,
                    job_name: job.name@,
                    step_name: first_failed_step(job.steps@),
                },
            )
        } else {
            before
        }
    }
}

fn find_failed_step(steps: &Vec<JobStep>) -> (r: Option<String>)
    ensures
        text::view_opt(r) == first_failed_step(steps@),
{
    let mut r: Option<String> = None;
    let mut i: usize = 0;
    while i < steps.len()
        invariant
            i <= steps@.len(),
            text::view_opt(r) == first_failed_step(steps@.take(i as int)),
        decreases steps@.len() - i,
    {
        assert(steps@.take(i + 1).drop_last() =~= steps@.take(i as int));
        let conclusion = &steps[i].conclusion;
        if r.is_none() && conclusion.is_some() && !cache::holds(conclusion, "success")
            && !cache::holds(conclusion, "skipped") {
            r = Some(steps[i].name.clone());
        }
        i = i + 1;
    }
    assert(steps@.take(i as int) =~= steps@);
    r
}

/// Adds the jobs that failed to a list of failures.
pub fn collect_failed_jobs(jobs: &Vec<Job>, failures: &mut Vec<FailedJob>)
    ensures
        failure_views(final(failures)@) == failure_views(old(failures)@) + failed_jobs(jobs@),
{
    let ghost first = failure_views(failures@);
    let mut i: usize = 0;
    assert(failure_views(failures@) =~= first + failed_jobs(jobs@.take(0)));
    while i < jobs.len()
        invariant
            i <= jobs@.len(),
            failure_views(failures@) == first + failed_jobs(jobs@.take(i as int)),
        decreases jobs@.len() - i,
    {
        assert(jobs@.take(i + 1).drop_last() =~= jobs@.take(i as int));
        let job = &jobs[i];
        let ghost before = failures@;
        if job.conclusion.is_some() && !cache::holds(&job.conclusion, "success") && !cache::holds(
            &job.conclusion,
            "skipped",
        ) && !cache::holds(&job.conclusion, "neutral") {
            failures.push(
                FailedJob {
                    job_id: job.id,
                    job_name: job.name.clone(),
                    step_name: find_failed_step(&job.steps),
                },
            );
            assert(failure_views(failures@) =~= failure_views(before).push(failures@.last()@));
            assert(failure_views(failures@) =~= first + failed_jobs(jobs@.take(i + 1)));
        }
        i = i + 1;
    }
    assert(jobs@.take(i as int) =~= jobs@);
}

/// A search for the failed jobs of a run, page by page.
pub struct JobSearch {
    pub base_path: String,
    pub page_number: u64,
    pub failures: Vec<FailedJob>,
}

/// What a [`JobSearch`] stands for.
#[verifier::ext_equal]
pub struct JobSearchModel {
    pub base_path: Seq<char>,
    pub page_number: nat,
    pub failures: Seq<FailureModel>,
}

impl View for JobSearch {
    type V = JobSearchModel;

    open spec fn view(&self) -> JobSearchModel {
        JobSearchModel {
            base_path: self.base_path@,
            page_number: self.page_number as nat,
            failures: failure_views(self.failures@),
        }
    }
}

impl JobSearchModel {
    /// The start of a search.
    pub open spec fn start(repository: RepositoryModel, run_id: u64) -> JobSearchModel {
        JobSearchModel {
            base_path: repository::endpoint(
                repository,
                "/actions/runs/"@ + text::decimal(run_id as nat) + "/jobs?per_page=100"@,
            ),
            page_number: 1,
            failures: Seq::empty(),
        }
    }

    /// The search behind a page of jobs.
    pub open spec fn with_page(self, jobs: Seq<Job>) -> JobSearchModel {
        JobSearchModel {
            failures: self.failures + failed_jobs(jobs),
            page_number: if is_full_page(jobs.len()) {
                self.page_number + 1
            } else {
                self.page_number
            },
            ..self
        }
    }
}

/// Whether a page holds as much as a page can, so that another may follow it.
pub open spec fn is_full_page(len: nat) -> bool {
    len >= runs::RUNS_PER_PAGE
}

impl JobSearch {
    /// Starts a search for the failed jobs of a run.
    pub fn fetch_failed_jobs(repository: &Repository, run_id: u64) -> (r: Self)
        ensures
            r@ == JobSearchModel::start(repository@, run_id),
    {
        let r = JobSearch {
            base_path: repository.run_jobs_api_path(run_id),
            page_number: 1,
            failures: Vec::new(),
        };
        assert(r@ =~= JobSearchModel::start(repository@, run_id));
        r
    }

    /// Takes the jobs of a page, and tells whether the search is done.
    pub fn step(&mut self, jobs: &Vec<Job>) -> (done: bool)
        requires
            old(self)@.page_number < u64::MAX,
        ensures
            final(self)@ == old(self)@.with_page(jobs@),
            done == !is_full_page(jobs@.len()),
    {
        let ghost before = self@;
        collect_failed_jobs(jobs, &mut self.failures);
        let done = jobs.len() < runs::RUNS_PER_PAGE;
        if !done {
            self.page_number = self.page_number + 1;
        }
        assert(self@ =~= before.with_page(jobs@));
        done
    }
}

/// Whether a schedule started a run.
pub open spec fn is_scheduled(run: CachedRun) -> bool {
    cache::is_text(run.event, "schedule"@)
}

/// The first run that a schedule started; where asked for, the first that is also completed.
pub open spec fn first_scheduled(runs: Seq<CachedRun>, completed: bool) -> Option<CachedRun>
    decreases runs.len(),
{
    if runs.len() == 0 {
        None
    } else {
        match first_scheduled(runs.drop_last(), completed) {
            Some(run) => Some(run),
            None => if is_scheduled(runs.last()) && (completed ==> runs.last().completed()) {
                Some(runs.last())
            } else {
                None
            },
        }
    }
}

/// A search for the latest scheduled run of a workflow, page by page, the newest run first.
pub struct ScheduledSearch {
    pub runs_path: String,
    pub page_number: u64,
    pub latest_scheduled: Option<CachedRun>,
    pub latest_completed: Option<CachedRun>,
}

/// What a [`ScheduledSearch`] stands for.
#[verifier::ext_equal]
pub struct ScheduledModel {
    pub runs_path: Seq<char>,
    pub page_number: nat,
    pub latest_scheduled: Option<CachedRun>,
    pub latest_completed: Option<CachedRun>,
}

impl View for ScheduledSearch {
    type V = ScheduledModel;

    open spec fn view(&self) -> ScheduledModel {
        ScheduledModel {
            runs_path: self.runs_path@,
            page_number: self.page_number as nat,
            latest_scheduled: self.latest_scheduled,
            latest_completed: self.latest_completed,
        }
    }
}

/// What was found before, or what is found now.
pub open spec fn first_of(a: Option<CachedRun>, b: Option<CachedRun>) -> Option<CachedRun> {
    if a is Some {
        a
    } else {
        b
    }
}

/// The identifier of a run, where the run failed.
pub open spec fn failed_id(run: Option<CachedRun>) -> Option<u64> {
    match run {
        Some(run) => if cache::is_text(run.conclusion, "failure"@) {
            run.id
        } else {
            None
        },
        None => None,
    }
}

impl ScheduledModel {
    /// The start of a search.
    pub open spec fn start(runs_path: Seq<char>) -> ScheduledModel {
        ScheduledModel { runs_path, page_number: 1, latest_scheduled: None, latest_completed: None }
    }

    /// The search with what a page shows.
    pub open spec fn seen(self, runs: Seq<CachedRun>) -> ScheduledModel {
        ScheduledModel {
            latest_scheduled: first_of(self.latest_scheduled, first_scheduled(runs, false)),
            latest_completed: first_of(self.latest_completed, first_scheduled(runs, true)),
            ..self
        }
    }

    /// Whether the search is done behind a page of some length.
    pub open spec fn is_done(self, len: nat) -> bool {
        (self.latest_scheduled is Some && self.latest_completed is Some) || !is_full_page(len)
    }

    /// The failed run that the search ends with. It is the latest scheduled run where that is
    /// completed, and the latest completed scheduled run otherwise; it counts where it failed.
    pub open spec fn found(self) -> Option<u64> {
        match self.latest_scheduled {
            Some(run) => if run.completed() {
                failed_id(Some(run))
            } else {
                failed_id(self.latest_completed)
            },
            None => None,
        }
    }
}

impl ScheduledSearch {
    /// Starts a search.
    pub fn find_failed_scheduled_run(runs_path: String) -> (r: Self)
        ensures
            r@ == ScheduledModel::start(runs_path@),
    {
        ScheduledSearch {
            runs_path,
            page_number: 1,
            latest_scheduled: None,
            latest_completed: None,
        }
    }

    fn look(&mut self, page: &Vec<CachedRun>)
        ensures
            final(self)@ == old(self)@.seen(page@),
    {
        let ghost before = self@;
        let mut i: usize = 0;
        assert(self@ =~= before.seen(page@.take(0)));
        while i < page.len()
            invariant
                i <= page@.len(),
                self@ == before.seen(page@.take(i as int)),
            decreases page@.len() - i,
        {
            assert(page@.take(i + 1).drop_last() =~= page@.take(i as int));
            let run = &page[i];
            if cache::holds(&run.event, "schedule") {
                if self.latest_scheduled.is_none() {
                    self.latest_scheduled = Some(run.clone());
                }
                if run.is_completed() && self.latest_completed.is_none() {
                    self.latest_completed = Some(run.clone());
                }
            }
            assert(self@ =~= before.seen(page@.take(i + 1)));
            i = i + 1;
        }
        assert(page@.take(i as int) =~= page@);
    }

    /// Takes the runs of a page, and tells whether the search is done.
    pub fn step(&mut self, page: &Vec<CachedRun>) -> (done: bool)
        requires
            old(self)@.page_number < u64::MAX,
        ensures
            done == old(self)@.seen(page@).is_done(page@.len()),
            final(self)@ == (if done {
                old(self)@.seen(page@)
            } else {
                ScheduledModel {
                    page_number: old(self)@.page_number + 1,
                    ..old(self)@.seen(page@)
                }
            }),
    {
        self.look(page);
        if (self.latest_scheduled.is_some() && self.latest_completed.is_some()) || page.len()
            < runs::RUNS_PER_PAGE {
            return true;
        }
        self.page_number = self.page_number + 1;
        false
    }

    /// The failed run that the search ends with.
    pub fn result(&self) -> (r: Option<u64>)
        ensures
            r == self@.found(),
    {
        match &self.latest_scheduled {
            Some(run) => if run.is_completed() {
                if cache::holds(&run.conclusion, "failure") {
                    run.id
                } else {
                    None
                }
            } else {
                match &self.latest_completed {
                    Some(run) => if cache::holds(&run.conclusion, "failure") {
                        run.id
                    } else {
                        None
                    },
                    None => None,
                }
            },
            None => None,
        }
    }
}

proof fn lemma_first_scheduled(runs: Seq<CachedRun>)
    ensures
        first_scheduled(runs, true) is Some ==> first_scheduled(runs, false) is Some,
        first_scheduled(runs, false) is Some && first_scheduled(runs, false)->0.completed()
            ==> first_scheduled(runs, true) == first_scheduled(runs, false),
    decreases runs.len(),
{
    if runs.len() > 0 {
        lemma_first_scheduled(runs.drop_last());
    }
}

proof fn lemma_first_scheduled_sum(a: Seq<CachedRun>, b: Seq<CachedRun>, completed: bool)
    ensures
        first_scheduled(a + b, completed) == first_of(
            first_scheduled(a, completed),
            first_scheduled(b, completed),
        ),
    decreases b.len(),
{
    if b.len() == 0 {
        assert(a + b =~= a);
    } else {
        lemma_first_scheduled_sum(a, b.drop_last(), completed);
        assert((a + b).drop_last() =~= a + b.drop_last());
    }
}

/// What a search that has seen some runs finds does not depend on how the runs were cut into
/// pages, and it is the newest completed run that a schedule started, where that run failed.
pub proof fn law_search_finds_latest_completed(
    path: Seq<char>,
    first: Seq<CachedRun>,
    rest: Seq<CachedRun>,
)
    ensures
        ScheduledModel::start(path).seen(first).seen(rest) == ScheduledModel::start(path).seen(
            first + rest,
        ),
        ScheduledModel::start(path).seen(first + rest).found() == failed_id(
            first_scheduled(first + rest, true),
        ),
{
    lemma_first_scheduled_sum(first, rest, true);
    lemma_first_scheduled_sum(first, rest, false);
    lemma_first_scheduled(first + rest);
}

/// The name of the step of a failure, or a note where no step is known.
pub open spec fn step_text(failure: FailureModel) -> Seq<char> {
    match failure.step_name {
        Some(name) => name,
        None => "(no step info)"@,
    }
}

/// Whether a job failed in the step that runs the tests, so that its log is read.
pub open spec fn ran_tests(failure: FailureModel) -> bool {
    failure.step_name == Some("Run HLSL Tests"@)
}

/// The first failure from `from` on whose log is read; the number of failures where there is
/// none.
pub open spec fn next_log(failures: Seq<FailureModel>, from: int) -> int
    decreases failures.len() - from,
{
    if from >= failures.len() {
        failures.len() as int
    } else if ran_tests(failures[from]) {
        from
    } else {
        next_log(failures, from + 1)
    }
}

/// What the logs that were read say.
#[verifier::ext_equal]
pub struct FindingsModel {
    pub failed_tests: Seq<Seq<char>>,
    pub unexpectedly_passed_tests: Seq<Seq<char>>,
    pub summaries: Seq<Seq<char>>,
}

impl FindingsModel {
    /// Nothing read yet.
    pub open spec fn nothing() -> FindingsModel {
        FindingsModel {
            failed_tests: Seq::empty(),
            unexpectedly_passed_tests: Seq::empty(),
            summaries: Seq::empty(),
        }
    }

    /// The findings with those of one more log.
    pub open spec fn with_log(self, log: Seq<char>) -> FindingsModel {
        FindingsModel {
            failed_tests: self.failed_tests + lit::test_names(log, true),
            unexpectedly_passed_tests: self.unexpectedly_passed_tests + lit::test_names(log, false),
            summaries: match lit::lit_summary(log) {
                Some(summary) => self.summaries.push(summary),
                None => self.summaries,
            },
        }
    }
}

/// What was found out, given the failures and what their logs say.
pub open spec fn report_of(
    workflow_id: u64,
    failures: Seq<FailureModel>,
    findings: FindingsModel,
) -> TriageModel {
    let jobs = text::joined(
        failures.map_values(|failure: FailureModel| failure.job_name),
        ", "@,
    );
    TriageModel {
        workflow_id,
        failed_jobs: if jobs.len() == 0 {
            "(no failed jobs reported)"@
        } else {
            jobs
        },
        failed_steps: text::joined(
            failures.map_values(|failure: FailureModel| step_text(failure)),
            ", "@,
        ),
        failed_tests: text::sorted_texts(findings.failed_tests),
        unexpectedly_passed_tests: text::sorted_texts(findings.unexpectedly_passed_tests),
        lit_summary: text::joined(findings.summaries, "\n\n"@),
    }
}

/// What the logs that were read say.
pub struct Findings {
    pub failed_tests: Vec<String>,
    pub unexpectedly_passed_tests: Vec<String>,
    pub summaries: Vec<String>,
}

impl View for Findings {
    type V = FindingsModel;

    open spec fn view(&self) -> FindingsModel {
        FindingsModel {
            failed_tests: text::views(self.failed_tests@),
            unexpectedly_passed_tests: text::views(self.unexpectedly_passed_tests@),
            summaries: text::views(self.summaries@),
        }
    }
}

impl Findings {
    /// Nothing read yet.
    pub fn new() -> (r: Self)
        ensures
            r@ == FindingsModel::nothing(),
    {
        let r = Findings {
            failed_tests: Vec::new(),
            unexpectedly_passed_tests: Vec::new(),
            summaries: Vec::new(),
        };
        assert(r@ =~= FindingsModel::nothing());
        r
    }

    /// Adds what a log says.
    pub fn add_log(&mut self, log: &str)
        ensures
            final(self)@ == old(self)@.with_log(log@),
    {
        let (failed, unexpectedly_passed) = lit::extract_lit_test_names(log);
        text::push_texts(&mut self.failed_tests, &failed);
        text::push_texts(&mut self.unexpectedly_passed_tests, &unexpectedly_passed);
        if let Some(summary) = lit::extract_lit_summary(log) {
            self.summaries.push(summary);
        }
    }
}

/// Puts together what was found out.
pub fn report(workflow_id: u64, failures: &Vec<FailedJob>, findings: &Findings) -> (r:
    WorkflowTriage)
    ensures
        r@ == report_of(workflow_id, failure_views(failures@), findings@),
{
    let ghost all = failure_views(failures@);
    let ghost names = all.map_values(|failure: FailureModel| failure.job_name);
    let ghost step_texts = all.map_values(|failure: FailureModel| step_text(failure));
    let mut jobs: Vec<String> = Vec::new();
    let mut steps: Vec<String> = Vec::new();
    let mut i: usize = 0;
    while i < failures.len()
        invariant
            i <= failures@.len(),
            all == failure_views(failures@),
            names == all.map_values(|failure: FailureModel| failure.job_name),
            step_texts == all.map_values(|failure: FailureModel| step_text(failure)),
            text::views(jobs@) =~= names.take(i as int),
            text::views(steps@) =~= step_texts.take(i as int),
        decreases failures@.len() - i,
    {
        let failure = &failures[i];
        assert(all[i as int] == failure@);
        jobs.push(failure.job_name.clone());
        steps.push(
            match &failure.step_name {
                Some(name) => name.clone(),
                None => "(no step info)".to_owned(),
            },
        );
        i = i + 1;
    }
    assert(names.take(i as int) =~= names);
    assert(step_texts.take(i as int) =~= step_texts);
    let failed_jobs = text::join(&jobs, ", ");
    WorkflowTriage {
        workflow_id,
        failed_jobs: if failed_jobs.as_str().is_empty() {
            "(no failed jobs reported)".to_owned()
        } else {
            failed_jobs
        },
        failed_steps: text::join(&steps, ", "),
        failed_tests: text::sort_dedup(&findings.failed_tests),
        unexpectedly_passed_tests: text::sort_dedup(&findings.unexpectedly_passed_tests),
        lit_summary: text::join(&findings.summaries, "\n\n"),
    }
}

/// How far the triage of a workflow has come.
pub enum Stage {
    /// The workflow file has to be read.
    Contents,
    /// Runs have to be searched for the latest scheduled one.
    Runs(ScheduledSearch),
    /// Jobs have to be searched for those that failed.
    Jobs(JobSearch),
    /// The log of the failure at `next` has to be read.
    Logs { failures: Vec<FailedJob>, next: usize, findings: Findings },
    /// All is known; `None` where there is nothing to report.
    Done(Option<WorkflowTriage>),
}

/// What a [`Stage`] stands for.
pub enum StageModel {
    Contents,
    Runs(ScheduledModel),
    Jobs(JobSearchModel),
    Logs { failures: Seq<FailureModel>, next: int, findings: FindingsModel },
    Done(Option<TriageModel>),
}

impl View for Stage {
    type V = StageModel;

    open spec fn view(&self) -> StageModel {
        match self {
            Stage::Contents => StageModel::Contents,
            Stage::Runs(search) => StageModel::Runs(search@),
            Stage::Jobs(search) => StageModel::Jobs(search@),
            Stage::Logs { failures, next, findings } => StageModel::Logs {
                failures: failure_views(failures@),
                next: *next as int,
                findings: findings@,
            },
            Stage::Done(triage) => StageModel::Done(
                match triage {
                    Some(triage) => Some(triage@),
                    None => None,
                },
            ),
        }
    }
}

/// The triage of a workflow.
pub struct Triage {
    pub repository: Repository,
    pub workflow_id: u64,
    pub workflow_path: String,
    pub stage: Stage,
}

/// What a [`Triage`] stands for.
pub struct TriageRun {
    pub repository: RepositoryModel,
    pub workflow_id: u64,
    pub workflow_path: Seq<char>,
    pub stage: StageModel,
}

impl View for Triage {
    type V = TriageRun;

    open spec fn view(&self) -> TriageRun {
        TriageRun {
            repository: self.repository@,
            workflow_id: self.workflow_id,
            workflow_path: self.workflow_path@,
            stage: self.stage@,
        }
    }
}

/// The answer to a request of a triage.
pub enum Answer {
    /// The workflow file.
    Contents(Vec<u8>),
    /// A page of runs.
    Runs(Vec<CachedRun>),
    /// A page of jobs.
    Jobs(Vec<Job>),
    /// The log of a job.
    Log(Vec<u8>),
}

/// Where a triage goes on behind the failures before `from`: to the next log that is to be
/// read, or to the report.
pub open spec fn logs_from(
    workflow_id: u64,
    failures: Seq<FailureModel>,
    from: int,
    findings: FindingsModel,
) -> StageModel {
    let next = next_log(failures, from);
    if next < failures.len() {
        StageModel::Logs { failures, next, findings }
    } else {
        StageModel::Done(Some(report_of(workflow_id, failures, findings)))
    }
}

impl TriageRun {
    /// The start of the triage of a workflow.
    pub open spec fn start(repository: RepositoryModel, workflow: Workflow) -> TriageRun {
        TriageRun {
            repository,
            workflow_id: workflow.id,
            workflow_path: workflow.path@,
            stage: StageModel::Contents,
        }
    }

    /// Whether there is a log to read where one is due.
    pub open spec fn is_ready(self) -> bool {
        self.stage matches StageModel::Logs { failures, next, .. } ==> 0 <= next < failures.len()
    }

    /// Whether an answer is one to the request that was made.
    pub open spec fn awaits(self, answer: Answer) -> bool {
        match (self.stage, answer) {
            (StageModel::Contents, Answer::Contents(_)) => true,
            (StageModel::Runs(search), Answer::Runs(_)) => search.page_number < u64::MAX,
            (StageModel::Jobs(search), Answer::Jobs(_)) => search.page_number < u64::MAX,
            (StageModel::Logs { failures, next, .. }, Answer::Log(_)) => 0 <= next
                < failures.len(),
            _ => false,
        }
    }

    /// The arguments of the request to make next; none where the triage is done.
    pub open spec fn next_request(self) -> Seq<Seq<char>> {
        match self.stage {
            StageModel::Contents => seq![
                "api"@,
                "-H"@,
                "Accept: application/vnd.github.raw+json"@,
                repository::endpoint(self.repository, "/contents/"@ + self.workflow_path),
            ],
            StageModel::Runs(search) => seq![
                "api"@,
                "-X"@,
                "GET"@,
                fetch::page_path(search.runs_path, search.page_number),
            ],
            StageModel::Jobs(search) => seq![
                "api"@,
                "-X"@,
                "GET"@,
                fetch::page_path(search.base_path, search.page_number),
            ],
            StageModel::Logs { failures, next, .. } => seq![
                "api"@,
                repository::endpoint(
                    self.repository,
                    "/actions/jobs/"@ + text::decimal(failures[next].job_id as nat) + "/logs"@,
                ),
            ],
            StageModel::Done(_) => Seq::empty(),
        }
    }

    /// The stage behind an answer.
    pub open spec fn next_stage(self, answer: Answer) -> StageModel {
        match (self.stage, answer) {
            (StageModel::Contents, Answer::Contents(bytes)) => if lit::scheduled(
                text::lossy_text(bytes@),
            ) {
                StageModel::Runs(
                    ScheduledModel::start(fetch::runs_path_of(self.repository, self.workflow_id)),
                )
            } else {
                StageModel::Done(None)
            },
            (StageModel::Runs(search), Answer::Runs(runs)) => {
                let seen = search.seen(runs@);
                if !seen.is_done(runs@.len()) {
                    StageModel::Runs(ScheduledModel { page_number: search.page_number + 1, ..seen })
                } else {
                    match seen.found() {
                        Some(id) => StageModel::Jobs(JobSearchModel::start(self.repository, id)),
                        None => StageModel::Done(None),
                    }
                }
            },
            (StageModel::Jobs(search), Answer::Jobs(jobs)) => {
                let after = search.with_page(jobs@);
                if is_full_page(jobs@.len()) {
                    StageModel::Jobs(after)
                } else {
                    logs_from(self.workflow_id, after.failures, 0, FindingsModel::nothing())
                }
            },
            (StageModel::Logs { failures, next, findings }, Answer::Log(bytes)) => logs_from(
                self.workflow_id,
                failures,
                next + 1,
                findings.with_log(text::lossy_text(bytes@)),
            ),
            _ => self.stage,
        }
    }

    /// The triage behind an answer.
    pub open spec fn after(self, answer: Answer) -> TriageRun {
        TriageRun { stage: self.next_stage(answer), ..self }
    }
}

fn stage_from(workflow_id: u64, failures: Vec<FailedJob>, from: usize, findings: Findings) -> (r:
    Stage)
    requires
        from <= failures@.len(),
    ensures
        r@ == logs_from(workflow_id, failure_views(failures@), from as int, findings@),
        r@ matches StageModel::Logs { failures: all, next, .. } ==> 0 <= next < all.len(),
{
    let ghost all = failure_views(failures@);
    let mut i: usize = from;
    while i < failures.len() && !cache::holds(&failures[i].step_name, "Run HLSL Tests")
        invariant
            i <= failures@.len(),
            all == failure_views(failures@),
            next_log(all, from as int) == next_log(all, i as int),
        decreases failures@.len() - i,
    {
        assert(all[i as int] == failures@[i as int]@);
        i = i + 1;
    }
    if i < failures.len() {
        assert(all[i as int] == failures@[i as int]@);
        Stage::Logs { failures, next: i, findings }
    } else {
        Stage::Done(Some(report(workflow_id, &failures, &findings)))
    }
}

fn arguments(a: &str, b: &str, c: &str, path: String) -> (r: Vec<String>)
    ensures
        text::views(r@) == seq![a@, b@, c@, path@],
{
    let mut r: Vec<String> = Vec::new();
    r.push(a.to_owned());
    r.push(b.to_owned());
    r.push(c.to_owned());
    r.push(path);
    assert(text::views(r@) =~= seq![a@, b@, c@, path@]);
    r
}

impl Triage {
    /// Starts the triage of a workflow.
    pub fn triage_workflow(repository: &Repository, workflow: &Workflow) -> (r: Self)
        ensures
            r@ == TriageRun::start(repository@, *workflow),
            r@.is_ready(),
    {
        Triage {
            repository: repository.clone(),
            workflow_id: workflow.id,
            workflow_path: workflow.path.clone(),
            stage: Stage::Contents,
        }
    }

    /// The arguments of the request to make next; none where the triage is done.
    pub fn request(&self) -> (r: Vec<String>)
        requires
            self@.is_ready(),
        ensures
            text::views(r@) == self@.next_request(),
    {
        match &self.stage {
            Stage::Contents => arguments(
                "api",
                "-H",
                "Accept: application/vnd.github.raw+json",
                self.repository.workflow_content_api_path(self.workflow_path.as_str()),
            ),
            Stage::Runs(search) => arguments(
                "api",
                "-X",
                "GET",
                fetch::page_address(search.runs_path.as_str(), search.page_number),
            ),
            Stage::Jobs(search) => arguments(
                "api",
                "-X",
                "GET",
                fetch::page_address(search.base_path.as_str(), search.page_number),
            ),
            Stage::Logs { failures, next, .. } => {
                let mut r: Vec<String> = Vec::new();
                r.push("api".to_owned());
                r.push(self.repository.job_logs_api_path(failures[*next].job_id));
                assert(text::views(r@) =~= self@.next_request());
                r
            },
            Stage::Done(_) => {
                let r: Vec<String> = Vec::new();
                assert(text::views(r@) =~= self@.next_request());
                r
            },
        }
    }

    /// Takes the answer to the request.
    pub fn step(self, answer: Answer) -> (r: Self)
        requires
            self@.awaits(answer),
        ensures
            r@ == self@.after(answer),
            r@.is_ready(),
    {
        let ghost before = self@;
        let Triage { repository, workflow_id, workflow_path, stage } = self;
        let stage = match (stage, answer) {
            (Stage::Contents, Answer::Contents(bytes)) => {
                let contents = text::from_utf8_lossy(bytes.as_slice());
                if lit::has_schedule_trigger(contents.as_str()) {
                    Stage::Runs(
                        ScheduledSearch::find_failed_scheduled_run(
                            repository.workflow_runs_api_path(workflow_id),
                        ),
                    )
                } else {
                    Stage::Done(None)
                }
            },
            (Stage::Runs(search), Answer::Runs(runs)) => {
                let mut search = search;
                if !search.step(&runs) {
                    Stage::Runs(search)
                } else {
                    match search.result() {
                        Some(id) => Stage::Jobs(JobSearch::fetch_failed_jobs(&repository, id)),
                        None => Stage::Done(None),
                    }
                }
            },
            (Stage::Jobs(search), Answer::Jobs(jobs)) => {
                let mut search = search;
                if search.step(&jobs) {
                    stage_from(workflow_id, search.failures, 0, Findings::new())
                } else {
                    Stage::Jobs(search)
                }
            },
            (Stage::Logs { failures, next, findings }, Answer::Log(bytes)) => {
                let log = text::from_utf8_lossy(bytes.as_slice());
                let mut findings = findings;
                findings.add_log(log.as_str());
                assert(next < failures.len());
                stage_from(workflow_id, failures, next + 1, findings)
            },
            (stage, _) => stage,
        };
        assert(stage@ == before.next_stage(answer));
        Triage { repository, workflow_id, workflow_path, stage }
    }
}

} // verus!
