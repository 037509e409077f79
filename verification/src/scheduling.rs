//! Which workflows are triaged, and what a triage asks for on its way to a report.
use vstd::prelude::*;
use vstd::string::*;

use crate::cache::CachedRun;
use crate::finding;
use crate::github::Workflow;
use crate::lit;
use crate::repository::RepositoryModel;
use crate::text::{self, CharClass};
use crate::texts;
use crate::triage::{
    self, Answer, FailureModel, FindingsModel, Job, JobSearchModel, ScheduledModel, StageModel,
    TriageRun,
};

verus! {

/// Whether a line starts with a key, plain or in quotes, and a colon.
pub open spec fn starts_with_key(line: Seq<char>, key: Seq<char>) -> bool {
    ||| text::begins_with(line, key + ":"@)
    ||| text::begins_with(line, "\""@ + key + "\":"@)
    ||| text::begins_with(line, "'"@ + key + "':"@)
}

/// Whether a line has as many blanks as told before the first character that is none.
pub open spec fn is_indented_by(line: Seq<char>, n: int) -> bool {
    &&& 0 <= n < line.len()
    &&& forall|k: int| 0 <= k < n ==> text::is_space(#[trigger] line[k])
    &&& !text::is_space(line[n])
}

/// Whether a line is blank or a comment.
pub open spec fn says_nothing(line: Seq<char>) -> bool {
    text::trimmed(line).len() == 0 || text::begins_with(text::trimmed(line), "#"@)
}

proof fn lemma_indent(line: Seq<char>, n: int)
    requires
        is_indented_by(line, n),
    ensures
        lit::indent(line) == n,
    decreases n,
{
    let class = CharClass::Space;
    if n > 0 {
        let rest = line.skip(1);
        assert(text::is_space(line[0]));
        assert forall|k: int| 0 <= k < n - 1 implies text::is_space(#[trigger] rest[k]) by {
            assert(rest[k] == line[k + 1]);
        }
        assert(rest[n - 1] == line[n]);
        lemma_indent(rest, n - 1);
        assert(text::trim_start_of(line, class) == text::trim_start_of(rest, class));
    }
}

/// A workflow whose top-level block of triggers has a schedule as one of its keys is scheduled,
/// whatever stands before the block, between the keys and behind them.
pub proof fn law_schedule_key_is_found(
    contents: Seq<char>,
    before: Seq<Seq<char>>,
    between: Seq<Seq<char>>,
    behind: Seq<Seq<char>>,
)
    requires
        text::lines_of(contents) == before + seq!["on:"@] + between + seq!["  schedule:"@] + behind,
        forall|k: int| 0 <= k < before.len() ==> !starts_with_key(#[trigger] before[k], "on"@),
        forall|k: int| 0 <= k < between.len() ==> text::begins_with(#[trigger] between[k], "  "@),
        between.len() > 0 ==> between[0].len() > 2 && !text::is_space(between[0][2]) && between[0][2]
            != '#',
    ensures
        lit::scheduled(contents),
{
    reveal_strlit("on:");
    reveal_strlit("on");
    reveal_strlit(":");
    reveal_strlit("  ");
    reveal_strlit("#");
    reveal_strlit("schedule");
    reveal_strlit("  schedule:");
    let lines = text::lines_of(contents);
    let on = before.len() as int;
    let at = on + 1 + between.len();
    let key = "  schedule:"@;
    assert(lines[on] == "on:"@);
    assert(lines[at] == key);
    assert("on"@ + ":"@ =~= "on:"@);
    assert("on:"@.subrange(0, 3) =~= "on:"@);
    assert("on:"@.skip(3) =~= Seq::<char>::empty());
    let none = Seq::<char>::empty();
    assert(text::trim_start_of(none, CharClass::Space) == none);
    assert(text::trimmed(none).len() == 0);
    assert(lit::opens_triggers(lines[on]));
    assert forall|k: int| 0 <= k < on implies !lit::opens_triggers(#[trigger] lines[k]) by {
        assert(lines[k] == before[k]);
        assert(!starts_with_key(before[k], "on"@));
    }
    assert forall|k: int| on < k < at implies lit::indented(#[trigger] lines[k]) by {
        assert(lines[k] == between[k - on - 1]);
        assert(between[k - on - 1].subrange(0, 2)[0] == ' ');
    }
    assert(is_indented_by(key, 2));
    lemma_indent(key, 2);
    let plain = "schedule"@ + ":"@;
    assert(texts::is_core(key, CharClass::Space, 2, 11));
    texts::law_trimming_leaves_core(key, CharClass::Space, 2, 11);
    assert(key.subrange(2, 11) =~= plain);
    assert(plain.subrange(0, 9) =~= plain);
    assert(plain.skip(9) =~= none);
    assert(lit::names_schedule(key));
    let first = lines[on + 1];
    assert(is_indented_by(first, 2) && first[2] != '#') by {
        if between.len() > 0 {
            assert(first == between[0]);
            assert(between[0].subrange(0, 2)[0] == ' ');
            assert(between[0].subrange(0, 2)[1] == ' ');
        }
    }
    lemma_said(first);
    lemma_indent(first, 2);
    assert(lit::first_said(lines, on + 1) == on + 1);
    assert(lit::schedule_at(lines, on, at));
}

proof fn lemma_said(line: Seq<char>)
    requires
        is_indented_by(line, 2),
        line[2] != '#',
    ensures
        !lit::silent(line),
{
    reveal_strlit("#");
    texts::law_trimming_takes_ends_off(line, CharClass::Space);
    let (i, j) = choose|i: int, j: int|
        #[trigger] texts::is_core(line, CharClass::Space, i, j) && text::trim_of(
            line,
            CharClass::Space,
        ) == line.subrange(i, j);
    if i > 2 {
        assert(CharClass::Space.has(line[2]));
    }
    if j <= 2 {
        assert(CharClass::Space.has(line[2]));
    }
    if i < 2 {
        assert(CharClass::Space.has(line[i]));
    }
    assert(text::trimmed(line)[0] == line[2]);
    if text::begins_with(text::trimmed(line), "#"@) {
        assert(text::trimmed(line).subrange(0, 1)[0] == '#');
    }
}

/// Whether two lines are a block of triggers and a schedule in it.
pub open spec fn is_schedule_in_block(lines: Seq<Seq<char>>, on: int, at: int) -> bool {
    &&& 0 <= on < at < lines.len()
    &&& starts_with_key(lines[on], "on"@)
    &&& starts_with_key(text::trimmed(lines[at]), "schedule"@)
    &&& lines[at].len() > 0 && (lines[at][0] == ' ' || lines[at][0] == '\t')
    &&& forall|k: int|
        on < k < at ==> says_nothing(#[trigger] lines[k]) || (lines[k].len() > 0 && (lines[k][0]
            == ' ' || lines[k][0] == '\t'))
}

/// A workflow is scheduled only where a key `schedule` stands, indented, in the block of a line
/// that starts with the key `on`.
pub proof fn law_scheduled_has_key(contents: Seq<char>)
    ensures
        lit::scheduled(contents) ==> exists|on: int, at: int|
            #[trigger] is_schedule_in_block(text::lines_of(contents), on, at),
{
    if lit::scheduled(contents) {
        let lines = text::lines_of(contents);
        let (on, at) = choose|on: int, at: int| lit::schedule_at(lines, on, at);
        assert(is_schedule_in_block(lines, on, at));
    }
}

/// A schedule that stands deeper than the first key of the block does not make a workflow
/// scheduled.
pub proof fn law_nested_schedule_does_not_count(contents: Seq<char>, on: int, depth: int)
    requires
        ({
            let lines = text::lines_of(contents);
            &&& 0 <= on < lines.len() - 1
            &&& forall|k: int|
                0 <= k < lines.len() && k != on ==> !starts_with_key(#[trigger] lines[k], "on"@)
            &&& is_indented_by(lines[on + 1], depth)
            &&& !says_nothing(lines[on + 1])
            &&& forall|k: int, n: int|
                0 <= k < lines.len() && starts_with_key(
                    text::trimmed(#[trigger] lines[k]),
                    "schedule"@,
                ) && #[trigger] is_indented_by(lines[k], n) ==> n > depth
        }),
    ensures
        !lit::scheduled(contents),
{
    let lines = text::lines_of(contents);
    if lit::scheduled(contents) {
        let (o, at) = choose|o: int, at: int| lit::schedule_at(lines, o, at);
        assert(starts_with_key(lines[o], "on"@));
        assert(o == on);
        assert(lit::first_said(lines, on + 1) == on + 1);
        lemma_indent(lines[on + 1], depth);
        let n = lemma_depth(lines[at]);
        lemma_indent(lines[at], n);
    }
}

proof fn lemma_depth(line: Seq<char>) -> (n: int)
    requires
        lit::names_schedule(line),
    ensures
        is_indented_by(line, n),
{
    reveal_strlit("schedule");
    reveal_strlit(":");
    reveal_strlit("\"");
    reveal_strlit("'");
    texts::law_trimming_takes_ends_off(line, CharClass::Space);
    let (i, j) = choose|i: int, j: int|
        #[trigger] texts::is_core(line, CharClass::Space, i, j) && text::trim_of(
            line,
            CharClass::Space,
        ) == line.subrange(i, j);
    assert(text::trimmed(line).len() > 0);
    assert forall|k: int| 0 <= k < i implies text::is_space(#[trigger] line[k]) by {
        assert(CharClass::Space.has(line[k]));
    }
    i
}

/// The address of something of a repository.
pub open spec fn address(repository: RepositoryModel, tail: Seq<char>) -> Seq<char> {
    "repos/"@ + repository.owner + "/"@ + repository.name + tail
}

/// A triage asks for the workflow file first; one that is not scheduled has nothing to report, and
/// of one that is the first page of runs is asked for.
pub proof fn law_triage_asks_for_file_first(
    repository: RepositoryModel,
    workflow: Workflow,
    bytes: Vec<u8>,
)
    ensures
        ({
            let run = TriageRun::start(repository, workflow);
            let after = run.after(Answer::Contents(bytes));
            &&& run.next_request() == seq![
                "api"@,
                "-H"@,
                "Accept: application/vnd.github.raw+json"@,
                address(repository, "/contents/"@ + workflow.path@),
            ]
            &&& !lit::scheduled(text::lossy_text(bytes@)) ==> after.stage == StageModel::Done(None)
            &&& lit::scheduled(text::lossy_text(bytes@)) ==> after.next_request() == seq![
                "api"@,
                "-X"@,
                "GET"@,
                address(
                    repository,
                    "/actions/workflows/"@ + text::decimal(workflow.id as nat)
                        + "/runs?per_page=100"@,
                ) + "&page="@ + text::decimal(1),
            ]
        }),
{
}

/// Where the latest scheduled run that is over failed, its jobs are asked for; where it did not, or
/// there is none, there is nothing to report.
pub proof fn law_triage_goes_on_with_failed_run(
    run: TriageRun,
    search: ScheduledModel,
    page: Vec<CachedRun>,
    i: int,
    id: u64,
)
    requires
        run.stage == StageModel::Runs(search),
        search == ScheduledModel::start(search.runs_path),
        0 <= i < page@.len(),
        finding::is_scheduled_and_over(page@[i]),
        forall|j: int| 0 <= j < i ==> !finding::is_scheduled_and_over(#[trigger] page@[j]),
        page@[i].id == Some(id),
    ensures
        crate::counting::says(page@[i].conclusion, "failure"@) ==> run.after(
            Answer::Runs(page),
        ).next_request() == seq![
            "api"@,
            "-X"@,
            "GET"@,
            address(
                run.repository,
                "/actions/runs/"@ + text::decimal(id as nat) + "/jobs?per_page=100"@,
            ) + "&page="@ + text::decimal(1),
        ],
        !crate::counting::says(page@[i].conclusion, "failure"@) ==> run.after(
            Answer::Runs(page),
        ).stage == StageModel::Done(None),
{
    finding::law_triage_takes_up_latest_scheduled(search.runs_path, page@, i);
    let seen = search.seen(page@);
    lemma_scheduled_seen(page@, i, true);
    lemma_scheduled_seen(page@, i, false);
    assert(seen.is_done(page@.len()));
}

proof fn lemma_scheduled_seen(page: Seq<CachedRun>, i: int, completed: bool)
    requires
        0 <= i < page.len(),
        finding::is_scheduled_and_over(page[i]),
    ensures
        triage::first_scheduled(page, completed) is Some,
    decreases page.len(),
{
    if i < page.len() - 1 {
        assert(page.drop_last()[i] == page[i]);
        lemma_scheduled_seen(page.drop_last(), i, completed);
    }
}

/// Behind a full page of jobs the next one is asked for, and the failed jobs of all pages count.
pub proof fn law_triage_reads_all_jobs(run: TriageRun, search: JobSearchModel, jobs: Vec<Job>)
    requires
        run.stage == StageModel::Jobs(search),
    ensures
        jobs@.len() >= 100 ==> (run.after(Answer::Jobs(jobs)).stage matches StageModel::Jobs(next)
            && next.page_number == search.page_number + 1 && next.base_path == search.base_path
            && next.failures == search.failures + triage::failed_jobs(jobs@)),
        jobs@.len() < 100 ==> !(run.after(Answer::Jobs(jobs)).stage is Jobs),
        run.next_request() == seq![
            "api"@,
            "-X"@,
            "GET"@,
            search.base_path + "&page="@ + text::decimal(search.page_number),
        ],
{
}

/// A report names the failed jobs and the steps in which they failed in their order, with a note
/// where none is known, the tests in order and each once, and the summaries in their order.
pub proof fn law_report_names_failures(
    id: u64,
    failures: Seq<FailureModel>,
    findings: FindingsModel,
    test: Seq<char>,
)
    ensures
        ({
            let report = triage::report_of(id, failures, findings);
            let names = failures.map_values(|failure: FailureModel| failure.job_name);
            &&& report.workflow_id == id
            &&& text::joined(names, ", "@).len() > 0 ==> report.failed_jobs == text::joined(
                names,
                ", "@,
            )
            &&& failures.len() == 0 ==> report.failed_jobs == "(no failed jobs reported)"@
            &&& report.failed_tests.contains(test) == findings.failed_tests.contains(test)
            &&& report.unexpectedly_passed_tests.contains(test)
                == findings.unexpectedly_passed_tests.contains(test)
            &&& text::increasing(report.failed_tests)
            &&& text::increasing(report.unexpectedly_passed_tests)
            &&& report.lit_summary == text::joined(findings.summaries, "\n\n"@)
        }),
        ({
            let steps = failures.map_values(
                |failure: FailureModel|
                    match failure.step_name {
                        Some(name) => name,
                        None => "(no step info)"@,
                    },
            );
            triage::report_of(id, failures, findings).failed_steps == text::joined(steps, ", "@)
        }),
{
    text::lemma_sorted_texts(findings.failed_tests);
    text::lemma_sorted_texts(findings.unexpectedly_passed_tests);
    let steps = failures.map_values(
        |failure: FailureModel|
            match failure.step_name {
                Some(name) => name,
                None => "(no step info)"@,
            },
    );
    assert(failures.map_values(|failure: FailureModel| triage::step_text(failure)) =~= steps);
    let names = failures.map_values(|failure: FailureModel| failure.job_name);
    if failures.len() == 0 {
        assert(names =~= Seq::<Seq<char>>::empty());
    }
}

/// A key may stand in quotes of either kind; what stands behind its colon is the same.
pub proof fn law_keys_may_be_quoted(key: Seq<char>, rest: Seq<char>)
    requires
        key.len() > 0,
        key[0] != '"',
        key[0] != '\'',
    ensures
        lit::behind_key(key + ":"@ + rest, key) == Some(rest),
        lit::behind_key("\""@ + key + "\":"@ + rest, key) == Some(rest),
        lit::behind_key("'"@ + key + "':"@ + rest, key) == Some(rest),
        lit::behind_key(rest, key) is Some ==> starts_with_key(rest, key),
{
    reveal_strlit(":");
    reveal_strlit("\"");
    reveal_strlit("\":");
    reveal_strlit("'");
    reveal_strlit("':");
    let plain = key + ":"@;
    let double = "\""@ + key + "\":"@;
    let single = "'"@ + key + "':"@;
    let a = plain + rest;
    let b = double + rest;
    let c = single + rest;
    assert(a.subrange(0, plain.len() as int) =~= plain);
    assert(a.skip(plain.len() as int) =~= rest);
    assert(b.subrange(0, double.len() as int) =~= double);
    assert(b.skip(double.len() as int) =~= rest);
    assert(c.subrange(0, single.len() as int) =~= single);
    assert(c.skip(single.len() as int) =~= rest);
    assert(b[0] == '"' && c[0] == '\'');
    if text::begins_with(b, plain) {
        assert(b.subrange(0, plain.len() as int)[0] == key[0]);
    }
    if text::begins_with(c, plain) {
        assert(c.subrange(0, plain.len() as int)[0] == key[0]);
    }
    if text::begins_with(c, double) {
        assert(c.subrange(0, double.len() as int)[0] == '"');
    }
}

/// The block of triggers may be followed by a comment on its line, and by nothing else; a schedule
/// may be followed by anything behind a blank.
pub proof fn law_block_line_may_have_comment(rest: Seq<char>)
    ensures
        lit::opens_triggers("on:"@ + rest) <==> text::trimmed(rest).len() == 0 || (rest[0] == ' '
            || rest[0] == '\t') && text::begins_with(text::trimmed(rest), "#"@),
{
    reveal_strlit("on");
    reveal_strlit("on:");
    reveal_strlit(":");
    reveal_strlit("#");
    assert("on"@ + ":"@ =~= "on:"@);
    assert("on"@[0] == 'o');
    law_keys_may_be_quoted("on"@, rest);
    if rest.len() == 0 {
        assert(text::trim_start_of(rest, CharClass::Space) == rest);
        assert(text::trimmed(rest).len() == 0);
    }
}

/// Whatever stands behind the key of a schedule and a blank, the line is one of a schedule; right
/// behind the colon nothing may stand.
pub proof fn law_schedule_line_may_go_on(rest: Seq<char>)
    requires
        rest.len() > 0 ==> !text::is_space(rest[rest.len() - 1]),
    ensures
        lit::names_schedule("  schedule:"@ + rest) <==> rest.len() == 0 || rest[0] == ' ' || rest[0]
            == '\t',
{
    reveal_strlit("schedule");
    reveal_strlit(":");
    reveal_strlit("  schedule:");
    let key = "schedule"@ + ":"@;
    let line = "  schedule:"@ + rest;
    let last = line.len() as int;
    assert(line[0] == ' ' && line[1] == ' ' && line[2] == 's');
    if rest.len() > 0 {
        assert(line[last - 1] == rest[rest.len() - 1]);
    } else {
        assert(line[last - 1] == ':');
    }
    assert(texts::is_core(line, CharClass::Space, 2, last));
    texts::law_trimming_leaves_core(line, CharClass::Space, 2, last);
    assert(line.subrange(2, last) =~= key + rest);
    assert("schedule"@[0] == 's');
    law_keys_may_be_quoted("schedule"@, rest);
}

} // verus!
