//! What a triage finds, by the answers to its requests.
use vstd::prelude::*;
use vstd::string::*;

use crate::cache::CachedRun;
use crate::counting::says;
use crate::lit;
use crate::repository;
use crate::text;
use crate::triage::{
    self, Answer, FailureModel, FindingsModel, Job, JobSearchModel, JobStep, ScheduledModel,
    StageModel, TriageRun,
};

verus! {

/// A triage behind some answers.
pub open spec fn after_answers(run: TriageRun, answers: Seq<Answer>) -> TriageRun
    decreases answers.len(),
{
    if answers.len() == 0 {
        run
    } else {
        after_answers(run, answers.drop_last()).after(answers.last())
    }
}

/// The text of a log that was read.
pub open spec fn log_text(answer: Answer) -> Seq<char> {
    match answer {
        Answer::Log(bytes) => text::lossy_text(bytes@),
        _ => Seq::empty(),
    }
}

/// The jobs whose first failed step is the one that runs the tests.
pub open spec fn test_jobs(failures: Seq<FailureModel>) -> Seq<FailureModel> {
    failures.filter(|failure: FailureModel| failure.step_name == Some("Run HLSL Tests"@))
}

/// The summaries of some logs, in their order, of those that have one.
pub open spec fn summaries(logs: Seq<Answer>) -> Seq<Seq<char>> {
    logs.map_values(|log: Answer| lit::lit_summary(log_text(log))).filter(
        |summary: Option<Seq<char>>| summary is Some,
    ).map_values(|summary: Option<Seq<char>>| summary->0)
}

/// Whether some log names a test.
pub open spec fn some_log_names(logs: Seq<Answer>, failed: bool, test: Seq<char>) -> bool {
    exists|k: int|
        0 <= k < logs.len() && lit::test_names(log_text(#[trigger] logs[k]), failed).contains(test)
}

/// Whether findings are those of some logs.
pub open spec fn are_findings(findings: FindingsModel, logs: Seq<Answer>) -> bool {
    &&& forall|test: Seq<char>|
        #[trigger] findings.failed_tests.contains(test) == some_log_names(logs, true, test)
    &&& forall|test: Seq<char>|
        #[trigger] findings.unexpectedly_passed_tests.contains(test) == some_log_names(
            logs,
            false,
            test,
        )
    &&& findings.summaries == summaries(logs)
}

proof fn lemma_with_log(findings: FindingsModel, logs: Seq<Answer>, log: Answer)
    requires
        are_findings(findings, logs),
    ensures
        are_findings(findings.with_log(log_text(log)), logs.push(log)),
{
    let after = findings.with_log(log_text(log));
    let all = logs.push(log);
    assert forall|test: Seq<char>| #[trigger] after.failed_tests.contains(test) == some_log_names(
        all,
        true,
        test,
    ) by {
        text::lemma_contains_sum(
            findings.failed_tests,
            lit::test_names(log_text(log), true),
            test,
        );
        assert(findings.failed_tests.contains(test) == some_log_names(logs, true, test));
        lemma_named_push(logs, log, true, test);
    }
    assert forall|test: Seq<char>| #[trigger]
        after.unexpectedly_passed_tests.contains(test) == some_log_names(all, false, test) by {
        text::lemma_contains_sum(
            findings.unexpectedly_passed_tests,
            lit::test_names(log_text(log), false),
            test,
        );
        assert(findings.unexpectedly_passed_tests.contains(test) == some_log_names(
            logs,
            false,
            test,
        ));
        lemma_named_push(logs, log, false, test);
    }
    let read = |a: Answer| lit::lit_summary(log_text(a));
    let some = |summary: Option<Seq<char>>| summary is Some;
    let old_read = logs.map_values(read);
    let new_read = all.map_values(read);
    assert(new_read.drop_last() =~= old_read);
    assert(new_read.last() == read(log));
    reveal(Seq::filter);
    if some(read(log)) {
        assert(new_read.filter(some) == old_read.filter(some).push(read(log)));
        assert(summaries(all) =~= summaries(logs).push(read(log)->0));
    } else {
        assert(new_read.filter(some) == old_read.filter(some));
    }
}

proof fn lemma_named_push(logs: Seq<Answer>, log: Answer, failed: bool, test: Seq<char>)
    ensures
        some_log_names(logs.push(log), failed, test) == (some_log_names(logs, failed, test)
            || lit::test_names(log_text(log), failed).contains(test)),
{
    let all = logs.push(log);
    if some_log_names(logs, failed, test) {
        let k = choose|k: int|
            0 <= k < logs.len() && lit::test_names(
                log_text(#[trigger] logs[k]),
                failed,
            ).contains(test);
        assert(all[k] == logs[k]);
    }
    assert(all[logs.len() as int] == log);
    if some_log_names(all, failed, test) {
        let k = choose|k: int|
            0 <= k < all.len() && lit::test_names(log_text(#[trigger] all[k]), failed).contains(
                test,
            );
        if k < logs.len() {
            assert(logs[k] == all[k]);
        }
    }
}

proof fn lemma_no_findings(logs: Seq<Answer>)
    requires
        logs.len() == 0,
    ensures
        are_findings(FindingsModel::nothing(), logs),
{
    reveal(Seq::filter);
    assert(logs.map_values(|log: Answer| lit::lit_summary(log_text(log))) =~= Seq::empty());
    assert(summaries(logs) =~= Seq::<Seq<char>>::empty());
}

proof fn lemma_next_log(failures: Seq<FailureModel>, from: int)
    requires
        0 <= from <= failures.len(),
    ensures
        ({
            let next = triage::next_log(failures, from);
            &&& from <= next <= failures.len()
            &&& test_jobs(failures.take(next)) == test_jobs(failures.take(from))
            &&& next < failures.len() ==> failures[next].step_name == Some("Run HLSL Tests"@)
        }),
    decreases failures.len() - from,
{
    if from < failures.len() && !triage::ran_tests(failures[from]) {
        lemma_next_log(failures, from + 1);
        reveal(Seq::filter);
        assert(failures.take(from + 1).drop_last() =~= failures.take(from));
        assert(failures.take(from + 1).last() == failures[from]);
    }
}

proof fn lemma_take_one_more(failures: Seq<FailureModel>, next: int)
    requires
        0 <= next < failures.len(),
        failures[next].step_name == Some("Run HLSL Tests"@),
    ensures
        test_jobs(failures.take(next + 1)) == test_jobs(failures.take(next)).push(failures[next]),
        test_jobs(failures).len() >= test_jobs(failures.take(next + 1)).len(),
        test_jobs(failures)[test_jobs(failures.take(next)).len() as int] == failures[next],
        test_jobs(failures.take(next)).len() < test_jobs(failures).len(),
    decreases failures.len(),
{
    reveal(Seq::filter);
    assert(failures.take(next + 1).drop_last() =~= failures.take(next));
    assert(failures.take(next + 1).last() == failures[next]);
    if next + 1 == failures.len() {
        assert(failures.take(next + 1) =~= failures);
    } else {
        let front = failures.drop_last();
        lemma_take_one_more(front, next);
        assert(front.take(next) =~= failures.take(next));
        assert(front.take(next + 1) =~= failures.take(next + 1));
    }
}

/// Whether a triage has come to reading logs: as many as given were read, the next one is that of
/// the next of the jobs whose tests failed, and where all were read all is known.
pub open spec fn has_read(run: TriageRun, failures: Seq<FailureModel>, logs: Seq<Answer>) -> bool {
    if logs.len() < test_jobs(failures).len() {
        run.stage matches StageModel::Logs { failures: all, next, findings } && all == failures && 0
            <= next < failures.len() && failures[next].step_name == Some("Run HLSL Tests"@)
            && test_jobs(failures.take(next)).len() == logs.len() && are_findings(findings, logs)
    } else {
        run.stage matches StageModel::Done(Some(report)) && exists|findings: FindingsModel|
            are_findings(findings, logs) && report == #[trigger] triage::report_of(
                run.workflow_id,
                failures,
                findings,
            )
    }
}

proof fn lemma_goes_on(
    run: TriageRun,
    failures: Seq<FailureModel>,
    from: int,
    findings: FindingsModel,
    logs: Seq<Answer>,
)
    requires
        0 <= from <= failures.len(),
        test_jobs(failures.take(from)).len() == logs.len(),
        are_findings(findings, logs),
        run.stage == triage::logs_from(run.workflow_id, failures, from, findings),
    ensures
        has_read(run, failures, logs),
{
    let next = triage::next_log(failures, from);
    lemma_next_log(failures, from);
    if next < failures.len() {
        lemma_take_one_more(failures, next);
    } else {
        assert(failures.take(next) =~= failures);
        let report = triage::report_of(run.workflow_id, failures, findings);
        assert(are_findings(findings, logs));
    }
}

proof fn lemma_reads_on(run: TriageRun, failures: Seq<FailureModel>, logs: Seq<Answer>, log: Answer)
    requires
        has_read(run, failures, logs),
        logs.len() < test_jobs(failures).len(),
        log is Log,
    ensures
        has_read(run.after(log), failures, logs.push(log)),
{
    if let StageModel::Logs { failures: all, next, findings } = run.stage {
        lemma_take_one_more(failures, next);
        lemma_with_log(findings, logs, log);
        lemma_goes_on(
            run.after(log),
            failures,
            next + 1,
            findings.with_log(log_text(log)),
            logs.push(log),
        );
    }
}

proof fn lemma_reads_all(run: TriageRun, failures: Seq<FailureModel>, logs: Seq<Answer>)
    requires
        has_read(run, failures, Seq::empty()),
        logs.len() <= test_jobs(failures).len(),
        forall|k: int| 0 <= k < logs.len() ==> (#[trigger] logs[k]) is Log,
    ensures
        has_read(after_answers(run, logs), failures, logs),
        after_answers(run, logs).repository == run.repository,
        after_answers(run, logs).workflow_id == run.workflow_id,
    decreases logs.len(),
{
    if logs.len() == 0 {
        assert(logs =~= Seq::<Answer>::empty());
    } else {
        let front = logs.drop_last();
        assert forall|k: int| 0 <= k < front.len() implies (#[trigger] front[k]) is Log by {
            assert(front[k] == logs[k]);
        }
        lemma_reads_all(run, failures, front);
        assert(logs[logs.len() - 1] is Log);
        lemma_reads_on(after_answers(run, front), failures, front, logs.last());
        assert(front.push(logs.last()) =~= logs);
    }
}

/// Behind the last page of jobs a triage asks for the logs of all jobs whose first failed step is
/// the one that runs the tests, one by one and in their order, and for no other. With the last of
/// them it is done: the tests that it reports are those that some of these logs name, in order
/// and each once, and its summary joins those of the logs in the order of the jobs.
pub proof fn law_triage_reads_every_log(
    run: TriageRun,
    search: JobSearchModel,
    jobs: Vec<Job>,
    logs: Seq<Answer>,
    k: int,
)
    requires
        run.stage == StageModel::Jobs(search),
        jobs@.len() < 100,
        logs.len() == test_jobs(search.failures + triage::failed_jobs(jobs@)).len(),
        forall|i: int| 0 <= i < logs.len() ==> (#[trigger] logs[i]) is Log,
        0 <= k <= logs.len(),
    ensures
        ({
            let failures = search.failures + triage::failed_jobs(jobs@);
            let now = after_answers(run.after(Answer::Jobs(jobs)), logs.take(k));
            if k < logs.len() {
                now.next_request() == seq![
                    "api"@,
                    repository::endpoint(
                        run.repository,
                        "/actions/jobs/"@ + text::decimal(test_jobs(failures)[k].job_id as nat)
                            + "/logs"@,
                    ),
                ]
            } else {
                &&& now.stage matches StageModel::Done(Some(report))
                &&& report.workflow_id == run.workflow_id
                &&& text::increasing(report.failed_tests)
                &&& text::increasing(report.unexpectedly_passed_tests)
                &&& forall|test: Seq<char>|
                    #[trigger] report.failed_tests.contains(test) == some_log_names(
                        logs,
                        true,
                        test,
                    )
                &&& forall|test: Seq<char>|
                    #[trigger] report.unexpectedly_passed_tests.contains(test) == some_log_names(
                        logs,
                        false,
                        test,
                    )
                &&& report.lit_summary == text::joined(summaries(logs), "\n\n"@)
            }
        }),
{
    let failures = search.failures + triage::failed_jobs(jobs@);
    let first = run.after(Answer::Jobs(jobs));
    let none = Seq::<Answer>::empty();
    lemma_no_findings(none);
    reveal(Seq::filter);
    assert(failures.take(0) =~= Seq::<FailureModel>::empty());
    lemma_goes_on(first, failures, 0, FindingsModel::nothing(), none);
    let part = logs.take(k);
    assert forall|i: int| 0 <= i < part.len() implies (#[trigger] part[i]) is Log by {
        assert(part[i] == logs[i]);
    }
    lemma_reads_all(first, failures, part);
    let now = after_answers(first, part);
    if k < logs.len() {
        if let StageModel::Logs { failures: all, next, findings } = now.stage {
            lemma_take_one_more(failures, next);
        }
    } else {
        assert(part =~= logs);
        if let StageModel::Done(Some(report)) = now.stage {
            let findings = choose|findings: FindingsModel|
                are_findings(findings, logs) && report == #[trigger] triage::report_of(
                    now.workflow_id,
                    failures,
                    findings,
                );
            text::lemma_sorted_texts(findings.failed_tests);
            text::lemma_sorted_texts(findings.unexpectedly_passed_tests);
            assert forall|test: Seq<char>|
                #[trigger] report.failed_tests.contains(test) == some_log_names(
                    logs,
                    true,
                    test,
                ) by {
                assert(findings.failed_tests.contains(test) == some_log_names(logs, true, test));
            }
            assert forall|test: Seq<char>|
                #[trigger] report.unexpectedly_passed_tests.contains(test) == some_log_names(
                    logs,
                    false,
                    test,
                ) by {
                assert(findings.unexpectedly_passed_tests.contains(test) == some_log_names(
                    logs,
                    false,
                    test,
                ));
            }
        }
    }
}

/// Whether a conclusion is there and is none of some words.
pub open spec fn ended_badly(conclusion: Option<String>, fine: Seq<Seq<char>>) -> bool {
    conclusion is Some && !fine.contains(conclusion->0@)
}

/// Whether a job ended otherwise than well, skipped or neutral.
pub open spec fn is_failed_job(job: Job) -> bool {
    ended_badly(job.conclusion, seq!["success"@, "skipped"@, "neutral"@])
}

/// Whether a step ended otherwise than well or skipped.
pub open spec fn is_failed_step(step: JobStep) -> bool {
    ended_badly(step.conclusion, seq!["success"@, "skipped"@])
}

proof fn lemma_ended_badly(job: Job, step: JobStep)
    ensures
        triage::job_failed(job) == is_failed_job(job),
        triage::step_failed(step) == is_failed_step(step),
{
    let three = seq!["success"@, "skipped"@, "neutral"@];
    assert(three[0] == "success"@ && three[1] == "skipped"@ && three[2] == "neutral"@);
    let two = seq!["success"@, "skipped"@];
    assert(two[0] == "success"@ && two[1] == "skipped"@);
}

proof fn lemma_first_step(steps: Seq<JobStep>)
    ensures
        match triage::first_failed_step(steps) {
            Some(name) => exists|i: int|
                0 <= i < steps.len() && is_failed_step(#[trigger] steps[i]) && steps[i].name@
                    == name && forall|j: int|
                    0 <= j < i ==> !is_failed_step(#[trigger] steps[j]),
            None => forall|j: int| 0 <= j < steps.len() ==> !is_failed_step(#[trigger] steps[j]),
        },
    decreases steps.len(),
{
    if steps.len() > 0 {
        let front = steps.drop_last();
        let last = steps.len() - 1;
        lemma_first_step(front);
        lemma_ended_badly(arbitrary(), steps.last());
        match triage::first_failed_step(front) {
            Some(name) => {
                let i = choose|i: int|
                    0 <= i < front.len() && is_failed_step(#[trigger] front[i]) && front[i].name@
                        == name && forall|j: int|
                        0 <= j < i ==> !is_failed_step(#[trigger] front[j]);
                assert(steps[i] == front[i]);
                assert forall|j: int| 0 <= j < i implies !is_failed_step(#[trigger] steps[j]) by {
                    assert(steps[j] == front[j]);
                }
            },
            None => {
                assert forall|j: int| 0 <= j < last implies !is_failed_step(
                    #[trigger] steps[j],
                ) by {
                    assert(steps[j] == front[j]);
                }
                assert(steps[last] == steps.last());
            },
        }
    }
}

/// The failures of a page are its jobs that failed, all of them and in their order.
pub proof fn law_failures_are_failed_jobs(jobs: Seq<Job>)
    ensures
        triage::failed_jobs(jobs).map_values(|failure: FailureModel| failure.job_id)
            == jobs.filter(|job: Job| is_failed_job(job)).map_values(|job: Job| job.id),
        triage::failed_jobs(jobs).map_values(|failure: FailureModel| failure.job_name)
            == jobs.filter(|job: Job| is_failed_job(job)).map_values(|job: Job| job.name@),
        triage::failed_jobs(jobs).len() == jobs.filter(|job: Job| is_failed_job(job)).len(),
    decreases jobs.len(),
{
    reveal(Seq::filter);
    let id = |failure: FailureModel| failure.job_id;
    let name = |failure: FailureModel| failure.job_name;
    let failed = jobs.filter(|job: Job| is_failed_job(job));
    if jobs.len() > 0 {
        let front = jobs.drop_last();
        let job = jobs.last();
        law_failures_are_failed_jobs(front);
        lemma_ended_badly(job, arbitrary());
        let before = front.filter(|job: Job| is_failed_job(job));
        if is_failed_job(job) {
            assert(failed == before.push(job));
            assert(failed.map_values(|job: Job| job.id) =~= before.map_values(
                |job: Job| job.id,
            ).push(job.id));
            assert(failed.map_values(|job: Job| job.name@) =~= before.map_values(
                |job: Job| job.name@,
            ).push(job.name@));
            assert(triage::failed_jobs(jobs).map_values(id) =~= triage::failed_jobs(
                front,
            ).map_values(id).push(job.id));
            assert(triage::failed_jobs(jobs).map_values(name) =~= triage::failed_jobs(
                front,
            ).map_values(name).push(job.name@));
        }
    } else {
        assert(triage::failed_jobs(jobs).map_values(id) =~= failed.map_values(|job: Job| job.id));
        assert(triage::failed_jobs(jobs).map_values(name) =~= failed.map_values(
            |job: Job| job.name@,
        ));
    }
}

/// The step of a failure is the first step of its job that failed; none where no step did.
pub proof fn law_step_is_first_failed(jobs: Seq<Job>, k: int)
    requires
        0 <= k < triage::failed_jobs(jobs).len(),
    ensures
        ({
            let job = jobs.filter(|job: Job| is_failed_job(job))[k];
            match triage::failed_jobs(jobs)[k].step_name {
                Some(name) => exists|i: int|
                    0 <= i < job.steps@.len() && is_failed_step(#[trigger] job.steps@[i])
                        && job.steps@[i].name@ == name && forall|j: int|
                        0 <= j < i ==> !is_failed_step(#[trigger] job.steps@[j]),
                None => forall|j: int|
                    0 <= j < job.steps@.len() ==> !is_failed_step(#[trigger] job.steps@[j]),
            }
        }),
    decreases jobs.len(),
{
    reveal(Seq::filter);
    law_failures_are_failed_jobs(jobs);
    if jobs.len() > 0 {
        let front = jobs.drop_last();
        law_failures_are_failed_jobs(front);
        lemma_ended_badly(jobs.last(), arbitrary());
        lemma_first_step(jobs.last().steps@);
        if k < triage::failed_jobs(front).len() {
            law_step_is_first_failed(front, k);
        }
    }
}

/// Whether a schedule started a run that is over.
pub open spec fn is_scheduled_and_over(run: CachedRun) -> bool {
    says(run.event, "schedule"@) && says(run.status, "completed"@)
}

proof fn lemma_first_over(list: Seq<CachedRun>)
    ensures
        match triage::first_scheduled(list, true) {
            Some(run) => exists|i: int|
                0 <= i < list.len() && #[trigger] list[i] == run && is_scheduled_and_over(list[i])
                    && forall|j: int|
                    0 <= j < i ==> !is_scheduled_and_over(#[trigger] list[j]),
            None => forall|j: int|
                0 <= j < list.len() ==> !is_scheduled_and_over(#[trigger] list[j]),
        },
    decreases list.len(),
{
    if list.len() > 0 {
        let front = list.drop_last();
        let last = list.len() - 1;
        lemma_first_over(front);
        match triage::first_scheduled(front, true) {
            Some(run) => {
                let i = choose|i: int|
                    0 <= i < front.len() && #[trigger] front[i] == run && is_scheduled_and_over(
                        front[i],
                    ) && forall|j: int|
                        0 <= j < i ==> !is_scheduled_and_over(#[trigger] front[j]);
                assert(list[i] == front[i]);
                assert forall|j: int| 0 <= j < i implies !is_scheduled_and_over(
                    #[trigger] list[j],
                ) by {
                    assert(list[j] == front[j]);
                }
            },
            None => {
                assert forall|j: int| 0 <= j < last implies !is_scheduled_and_over(
                    #[trigger] list[j],
                ) by {
                    assert(list[j] == front[j]);
                }
                assert(list[last] == list.last());
            },
        }
    }
}

/// Of runs, the newest first, a triage takes up the first that a schedule started and that is
/// over, where it failed; where there is none, or it did not fail, there is nothing to take up.
pub proof fn law_triage_takes_up_latest_scheduled(path: Seq<char>, list: Seq<CachedRun>, i: int)
    ensures
        0 <= i < list.len() && is_scheduled_and_over(list[i]) && (forall|j: int|
            0 <= j < i ==> !is_scheduled_and_over(#[trigger] list[j])) ==> ScheduledModel::start(
            path,
        ).seen(list).found() == (if says(list[i].conclusion, "failure"@) {
            list[i].id
        } else {
            None
        }),
        (forall|j: int| 0 <= j < list.len() ==> !is_scheduled_and_over(#[trigger] list[j]))
            ==> ScheduledModel::start(path).seen(list).found() is None,
{
    let none = Seq::<CachedRun>::empty();
    triage::law_search_finds_latest_completed(path, list, none);
    assert(list + none =~= list);
    lemma_first_over(list);
    if let Some(run) = triage::first_scheduled(list, true) {
        let k = choose|k: int|
            0 <= k < list.len() && #[trigger] list[k] == run && is_scheduled_and_over(list[k])
                && forall|j: int| 0 <= j < k ==> !is_scheduled_and_over(#[trigger] list[j]);
        if 0 <= i < list.len() && is_scheduled_and_over(list[i]) && (forall|j: int|
            0 <= j < i ==> !is_scheduled_and_over(#[trigger] list[j])) {
            if k < i {
                assert(!is_scheduled_and_over(list[k]));
            }
            if i < k {
                assert(!is_scheduled_and_over(list[i]));
            }
        }
    }
}

/// A search for a scheduled run goes on to the next page as long as pages are full and no run
/// that a schedule started is over; it ends with the first page that is not full.
pub proof fn law_search_goes_on(run: TriageRun, search: ScheduledModel, page: Vec<CachedRun>)
    requires
        run.stage == StageModel::Runs(search),
        search.latest_completed is None,
    ensures
        page@.len() >= 100 && (forall|j: int|
            0 <= j < page@.len() ==> !is_scheduled_and_over(#[trigger] page@[j])) ==> {
            &&& run.after(Answer::Runs(page)).stage matches StageModel::Runs(next)
            &&& next.page_number == search.page_number + 1
            &&& next.runs_path == search.runs_path
            &&& next.latest_completed is None
        },
        page@.len() < 100 ==> !(run.after(Answer::Runs(page)).stage is Runs),
{
    lemma_first_over(page@);
}

} // verus!
