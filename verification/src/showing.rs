//! What is shown of workflows, of findings and of what goes on.
use vstd::prelude::*;
use vstd::string::*;

use crate::github::{RunCounts, RunStatus, TriageModel, Workflow};
use crate::layout::Rect;
use crate::logs;
use crate::report::{self, LineModel, TestOutcome};
use crate::screen::{self, ContentsModel, RateBand, RowModel};
use crate::state;
use crate::text;
use crate::tui::{AppModel, LoadKind, Mode};

verus! {

/// The status of a workflow in progress is shown for half a second and hidden for the next half,
/// in turns, from the start on.
pub proof fn law_status_flashes(elapsed: u64)
    requires
        elapsed + 500 <= u64::MAX,
    ensures
        elapsed < 500 ==> screen::flashes(elapsed),
        screen::flashes((elapsed + 500) as u64) == !screen::flashes(elapsed),
{
    assert((elapsed + 500) / 500 == elapsed / 500 + 1);
}

/// Each status has a sign of its own, which is hidden only of a workflow in progress.
pub proof fn law_signs_tell_status(workflow: Workflow, visible: bool)
    ensures
        ({
            let sign = screen::status_sign(workflow, visible);
            let shown = visible || !workflow.is_in_progress;
            &&& shown && workflow.run_status == RunStatus::Success ==> sign == "🟢"@
            &&& shown && workflow.run_status == RunStatus::Failure ==> sign == "🔴"@
            &&& shown && workflow.run_status == RunStatus::Other ==> sign == "⚪"@
            &&& !shown ==> sign.len() == 0
        }),
{
    reveal_strlit("");
}

/// A pass rate is high from ninety percent on, middling from seventy percent on, and low below
/// that or where no run has completed.
pub proof fn law_bands_tell_rates(counts: RunCounts)
    ensures
        screen::band_of(counts) == RateBand::High <==> counts.total > 0 && 10 * counts.passed >= 9
            * counts.total,
        screen::band_of(counts) == RateBand::Low <==> counts.total == 0 || 10 * counts.passed < 7
            * counts.total,
{
}

/// A list shows a row for each workflow in its order: its name, and its status and its metrics
/// unless they are still loading.
pub proof fn law_rows_show_workflows(
    workflows: Seq<Workflow>,
    loading_ids: Seq<u64>,
    loading: bool,
    is_filtered: bool,
    flash: bool,
    k: int,
)
    requires
        0 <= k < workflows.len(),
    ensures
        screen::contents_of(workflows, loading_ids, loading, is_filtered, flash) matches
            ContentsModel::Rows(rows) && rows.len() == workflows.len() && match rows[k] {
            RowModel::Loading { name } => name == workflows[k].name@ && loading_ids.contains(
                workflows[k].id,
            ),
            RowModel::Ready { status, name, metrics } => {
                &&& !loading_ids.contains(workflows[k].id)
                &&& name == workflows[k].name@
                &&& metrics == workflows[k].run_metrics
                &&& status == screen::status_sign(workflows[k], flash)
            },
        },
{
}

/// An empty list says that it is loading, that its filter lets none through, or that there is
/// none.
pub proof fn law_empty_list_says_why(
    loading_ids: Seq<u64>,
    loading: bool,
    is_filtered: bool,
    flash: bool,
)
    ensures
        screen::contents_of(Seq::empty(), loading_ids, loading, is_filtered, flash)
            == ContentsModel::Message(
            if loading {
                "Loading GitHub Actions workflows..."@
            } else if is_filtered {
                "No workflows match this view's filter."@
            } else {
                "This view has no active GitHub Actions workflows."@
            },
        ),
{
}

/// The title of a tab is its name, or its place counted from one, with a blank on either side.
pub proof fn law_tabs_have_titles(app: AppModel, k: int)
    requires
        0 <= k < app.tabs.len(),
    ensures
        app.tab_titles().len() == app.tabs.len(),
        app.tabs[k].name matches Some(name) ==> app.tab_titles()[k] == " "@ + name + " "@,
        app.tabs[k].name is None ==> app.tab_titles()[k] == " "@ + ("Tab "@ + text::decimal(
            (k + 1) as nat,
        )) + " "@,
{
}

/// The status bar tells of a triage before all else, then of a load and how far it has come, and
/// otherwise what was said last.
pub proof fn law_bar_tells_what_goes_on(app: AppModel)
    ensures
        app.mode == Mode::Command ==> app.bar() == (" COMMAND "@, ":"@ + app.command),
        app.mode == Mode::Normal && app.triage_running ==> app.bar().0 == " TRIAGING "@,
        app.mode == Mode::Normal && !app.triage_running ==> match app.pending_load {
            Some(load) => {
                &&& app.bar().0 == (if load.kind == LoadKind::Refresh {
                    " REFRESHING "@
                } else {
                    " LOADING "@
                })
                &&& app.workflows.len() > 0 ==> text::finishes_with(
                    app.bar().1,
                    "... ("@ + text::decimal(app.loaded_status_count as nat) + "/"@ + text::decimal(
                        app.workflows.len(),
                    ) + ")"@,
                )
            },
            None => app.bar().0 == " NORMAL "@ && (app.message matches Some(message)
                ==> app.bar().1 == message),
        },
        app.rate_label() == "refresh: "@ + text::decimal(app.refresh_interval as nat) + "s"@,
{
    if app.mode == Mode::Normal && !app.triage_running && app.workflows.len() > 0 {
        if let Some(load) = app.pending_load {
            let end = "... ("@ + text::decimal(app.loaded_status_count as nat) + "/"@
                + text::decimal(app.workflows.len()) + ")"@;
            let all = app.bar().1;
            assert(all.subrange(all.len() - end.len(), all.len() as int) =~= end);
        }
    }
}

/// The cursor of the command line stands behind the colon and the characters before it, where
/// there is room, and at the last cell where there is not.
pub proof fn law_cursor_follows_command(left: Rect, bar_x: u16, cursor: usize)
    requires
        left.x + left.width <= u16::MAX,
        cursor <= u16::MAX,
    ensures
        left.width > 0 && left.x + 1 + cursor < left.x + left.width ==> screen::cursor_of(
            left,
            bar_x,
            cursor,
        ) == left.x + 1 + cursor,
        left.width > 0 && left.x + 1 + cursor >= left.x + left.width ==> screen::cursor_of(
            left,
            bar_x,
            cursor,
        ) == left.x + left.width - 1,
        left.width == 0 ==> screen::cursor_of(left, bar_x, cursor) == bar_x,
{
    assert(cursor % 0x10000 == cursor) by (nonlinear_arith)
        requires
            cursor <= 0xffff,
    ;
}

/// The right end of the status bar has room for the refresh rate, the status and a blank behind
/// each, as far as the bar goes.
pub proof fn law_bar_end_has_room(rate: Seq<char>, status: Seq<char>, width: u16)
    ensures
        rate.len() + status.len() + 2 <= width ==> screen::suffix_cells(rate, status, width)
            == rate.len() + status.len() + 2,
        rate.len() + status.len() + 2 > width ==> screen::suffix_cells(rate, status, width) == width,
{
}

/// What is shown of a workflow names its failed jobs and steps first; then, each under its heading
/// and only where there are any, its failed tests, its unexpectedly passed tests and its summary,
/// in their order.
pub proof fn law_findings_are_shown(triage: TriageModel, i: int)
    ensures
        ({
            let lines = report::triage_lines(Some(triage));
            let failed = triage.failed_tests;
            let passed = triage.unexpectedly_passed_tests;
            let summary = text::lines_of(triage.lit_summary);
            let a = 2int;
            let b = a + (if failed.len() > 0 {
                failed.len() + 2
            } else {
                0
            });
            let c = b + (if passed.len() > 0 {
                passed.len() + 2
            } else {
                0
            });
            let d = c + (if summary.len() > 0 {
                summary.len() + 2
            } else {
                0
            });
            &&& lines.len() == d
            &&& lines[0] == (LineModel { text: "Failed jobs: "@ + triage.failed_jobs, bold: false })
            &&& lines[1] == (LineModel { text: "Failed steps: "@ + triage.failed_steps, bold: false })
            &&& failed.len() > 0 ==> lines[a].text.len() == 0 && lines[a + 1] == (LineModel {
                text: "Failed tests:"@,
                bold: true,
            })
            &&& 0 <= i < failed.len() ==> lines[a + 2 + i] == (LineModel {
                text: "  - "@ + failed[i],
                bold: false,
            })
            &&& passed.len() > 0 ==> lines[b].text.len() == 0 && lines[b + 1] == (LineModel {
                text: "Unexpectedly passed tests:"@,
                bold: true,
            })
            &&& 0 <= i < passed.len() ==> lines[b + 2 + i] == (LineModel {
                text: "  - "@ + passed[i],
                bold: false,
            })
            &&& summary.len() > 0 ==> lines[c].text.len() == 0 && lines[c + 1] == (LineModel {
                text: "lit summary:"@,
                bold: true,
            })
            &&& 0 <= i < summary.len() ==> lines[c + 2 + i] == (LineModel {
                text: summary[i],
                bold: false,
            })
        }),
{
}

/// Whether a result tells of a test with an outcome, in its lists or in its summary.
pub open spec fn tells(result: TriageModel, outcome: TestOutcome, test: Seq<char>) -> bool {
    ||| outcome == TestOutcome::Failed && result.failed_tests.contains(test)
    ||| outcome == TestOutcome::UnexpectedlyPassed && result.unexpectedly_passed_tests.contains(test)
    ||| exists|head: int, k: int|
        #[trigger] logs::summary_names(
            text::lines_of(result.lit_summary),
            head,
            k,
            (outcome, test),
        )
}

/// Whether a workflow is among some.
pub open spec fn is_among(workflows: Seq<Workflow>, id: u64) -> bool {
    exists|n: int| 0 <= n < workflows.len() && (#[trigger] workflows[n]).id == id
}

/// Whether the results of two workflows that are shown tell of a test with an outcome.
pub open spec fn is_shared(
    workflows: Seq<Workflow>,
    results: Seq<TriageModel>,
    outcome: TestOutcome,
    test: Seq<char>,
) -> bool {
    exists|i: int, j: int|
        0 <= i < results.len() && 0 <= j < results.len() && results[i].workflow_id
            != results[j].workflow_id && is_among(workflows, results[i].workflow_id) && is_among(
            workflows,
            results[j].workflow_id,
        ) && #[trigger] tells(results[i], outcome, test) && #[trigger] tells(
            results[j],
            outcome,
            test,
        )
}

proof fn lemma_among(workflows: Seq<Workflow>, id: u64)
    ensures
        is_among(workflows, id) == (state::last_with_id(workflows, id) is Some),
    decreases workflows.len(),
{
    if workflows.len() > 0 {
        let front = workflows.drop_last();
        lemma_among(front, id);
        if is_among(front, id) {
            let n = choose|n: int| 0 <= n < front.len() && (#[trigger] front[n]).id == id;
            assert(workflows[n].id == id);
        }
        if workflows.last().id == id {
            assert(workflows[workflows.len() - 1].id == id);
        }
        if is_among(workflows, id) && !is_among(front, id) {
            let n = choose|n: int| 0 <= n < workflows.len() && (#[trigger] workflows[n]).id == id;
            if n < front.len() {
                assert(front[n].id == id);
            }
        }
    }
}

proof fn lemma_tests_with(
    tests: Seq<(TestOutcome, Seq<char>)>,
    outcome: TestOutcome,
    test: Seq<char>,
)
    ensures
        report::tests_with(tests, outcome).contains(test) == tests.contains((outcome, test)),
    decreases tests.len(),
{
    if tests.len() > 0 {
        let front = tests.drop_last();
        let before = report::tests_with(front, outcome);
        let all = report::tests_with(tests, outcome);
        lemma_tests_with(front, outcome, test);
        if all.contains(test) {
            let n = choose|n: int| 0 <= n < all.len() && all[n] == test;
            if n < before.len() {
                assert(before[n] == test);
                let m = choose|m: int| 0 <= m < front.len() && front[m] == (outcome, test);
                assert(tests[m] == (outcome, test));
            } else {
                assert(tests[tests.len() - 1] == (outcome, test));
            }
        }
        if tests.contains((outcome, test)) {
            let m = choose|m: int| 0 <= m < tests.len() && tests[m] == (outcome, test);
            if m < front.len() {
                assert(front[m] == (outcome, test));
                let n = choose|n: int| 0 <= n < before.len() && before[n] == test;
                assert(all[n] == test);
            } else {
                assert(all[before.len() as int] == test);
            }
        }
    }
}

proof fn lemma_tells(result: TriageModel, outcome: TestOutcome, test: Seq<char>)
    ensures
        tells(result, outcome, test) == report::workflow_tests(result, outcome).contains(test),
{
    let lines = text::lines_of(result.lit_summary);
    let tests = report::tests_in(lines);
    logs::law_summaries_name_tests(lines, (outcome, test));
    lemma_tests_with(tests, outcome, test);
    let listed = match outcome {
        TestOutcome::Failed => result.failed_tests,
        TestOutcome::UnexpectedlyPassed => result.unexpectedly_passed_tests,
    };
    text::lemma_contains_sum(listed, report::tests_with(tests, outcome), test);
}

proof fn lemma_shared(
    workflows: Seq<Workflow>,
    results: Seq<TriageModel>,
    outcome: TestOutcome,
    test: Seq<char>,
)
    ensures
        is_shared(workflows, results, outcome, test) == report::shared(
            workflows,
            results,
            outcome,
            test,
        ),
{
    if is_shared(workflows, results, outcome, test) {
        let (i, j) = choose|i: int, j: int|
            0 <= i < results.len() && 0 <= j < results.len() && results[i].workflow_id
                != results[j].workflow_id && is_among(workflows, results[i].workflow_id)
                && is_among(workflows, results[j].workflow_id) && #[trigger] tells(
                results[i],
                outcome,
                test,
            ) && #[trigger] tells(results[j], outcome, test);
        lemma_tells(results[i], outcome, test);
        lemma_tells(results[j], outcome, test);
        lemma_among(workflows, results[i].workflow_id);
        lemma_among(workflows, results[j].workflow_id);
        assert(report::reported_by(workflows, results[i], outcome, test));
        assert(report::reported_by(workflows, results[j], outcome, test));
    }
    if report::shared(workflows, results, outcome, test) {
        let (i, j) = choose|i: int, j: int|
            0 <= i < results.len() && 0 <= j < results.len() && results[i].workflow_id
                != results[j].workflow_id && #[trigger] report::reported_by(
                workflows,
                results[i],
                outcome,
                test,
            ) && #[trigger] report::reported_by(workflows, results[j], outcome, test);
        lemma_tells(results[i], outcome, test);
        lemma_tells(results[j], outcome, test);
        lemma_among(workflows, results[i].workflow_id);
        lemma_among(workflows, results[j].workflow_id);
        assert(tells(results[i], outcome, test));
        assert(tells(results[j], outcome, test));
    }
}

/// A test is listed as shared exactly where the results of two workflows that are shown tell of
/// it. The shared tests come in order and each once.
pub proof fn law_tests_of_two_workflows_are_shared(
    workflows: Seq<Workflow>,
    results: Seq<TriageModel>,
    outcome: TestOutcome,
    test: Seq<char>,
)
    ensures
        report::shared_tests(workflows, results, outcome).contains(test) == is_shared(
            workflows,
            results,
            outcome,
            test,
        ),
        text::increasing(report::shared_tests(workflows, results, outcome)),
{
    lemma_shared(workflows, results, outcome, test);
    report::law_shared_tests(workflows, results, outcome, test);
    let all = text::sorted_texts(report::shown_tests(workflows, results, outcome));
    text::lemma_sorted_texts(report::shown_tests(workflows, results, outcome));
    text::lemma_filter_increasing(
        all,
        |test: Seq<char>| report::shared(workflows, results, outcome, test),
    );
}

/// Whether a result of a workflow of some name tells of a test with an outcome.
pub open spec fn tells_of(
    workflows: Seq<Workflow>,
    result: TriageModel,
    outcome: TestOutcome,
    test: Seq<char>,
    name: Seq<char>,
) -> bool {
    tells(result, outcome, test) && exists|n: int|
        0 <= n < workflows.len() && (#[trigger] workflows[n]).id == result.workflow_id
            && workflows[n].name@ == name
}

/// The workflows that are named under a test are those whose results tell of it, in order and each
/// once. This holds where no two workflows have one identifier.
pub proof fn law_names_under_test_are_affected(
    workflows: Seq<Workflow>,
    results: Seq<TriageModel>,
    outcome: TestOutcome,
    test: Seq<char>,
    name: Seq<char>,
)
    requires
        forall|i: int, j: int|
            0 <= i < j < workflows.len() ==> (#[trigger] workflows[i]).id != (
            #[trigger] workflows[j]).id,
    ensures
        report::affected(workflows, results, outcome, test).contains(name) == (exists|i: int|
            0 <= i < results.len() && #[trigger] tells_of(
                workflows,
                results[i],
                outcome,
                test,
                name,
            )),
        text::increasing(report::affected(workflows, results, outcome, test)),
{
    report::law_shared_tests(workflows, results, outcome, test);
    text::lemma_sorted_texts(report::names_with(workflows, results, outcome, test));
    assert forall|i: int| 0 <= i < results.len() implies #[trigger] tells_of(
        workflows,
        results[i],
        outcome,
        test,
        name,
    ) == report::reports(workflows, results[i], outcome, test, name) by {
        lemma_tells(results[i], outcome, test);
        lemma_last(workflows, results[i].workflow_id, name);
    }
    if exists|i: int|
        0 <= i < results.len() && #[trigger] tells_of(
            workflows,
            results[i],
            outcome,
            test,
            name,
        ) {
        let i = choose|i: int|
            0 <= i < results.len() && #[trigger] tells_of(
                workflows,
                results[i],
                outcome,
                test,
                name,
            );
        assert(report::reports(workflows, results[i], outcome, test, name));
    }
    if exists|i: int|
        0 <= i < results.len() && #[trigger] report::reports(
            workflows,
            results[i],
            outcome,
            test,
            name,
        ) {
        let i = choose|i: int|
            0 <= i < results.len() && #[trigger] report::reports(
                workflows,
                results[i],
                outcome,
                test,
                name,
            );
        assert(tells_of(workflows, results[i], outcome, test, name));
    }
}

proof fn lemma_last(workflows: Seq<Workflow>, id: u64, name: Seq<char>)
    requires
        forall|i: int, j: int|
            0 <= i < j < workflows.len() ==> (#[trigger] workflows[i]).id != (
            #[trigger] workflows[j]).id,
    ensures
        (exists|n: int|
            0 <= n < workflows.len() && (#[trigger] workflows[n]).id == id && workflows[n].name@
                == name) == (state::last_with_id(workflows, id) matches Some(workflow)
            && workflow.name@ == name),
    decreases workflows.len(),
{
    if workflows.len() > 0 {
        let front = workflows.drop_last();
        let at = workflows.len() - 1;
        assert forall|i: int, j: int| 0 <= i < j < front.len() implies (#[trigger] front[i]).id
            != (#[trigger] front[j]).id by {
            assert(workflows[i].id != workflows[j].id);
        }
        lemma_last(front, id, name);
        if workflows.last().id == id {
            assert(workflows[at].id == id);
        } else {
            if exists|n: int|
                0 <= n < front.len() && (#[trigger] front[n]).id == id && front[n].name@ == name {
                let n = choose|n: int|
                    0 <= n < front.len() && (#[trigger] front[n]).id == id && front[n].name@ == name;
                assert(workflows[n] == front[n]);
            }
            if exists|n: int|
                0 <= n < workflows.len() && (#[trigger] workflows[n]).id == id
                    && workflows[n].name@ == name {
                let n = choose|n: int|
                    0 <= n < workflows.len() && (#[trigger] workflows[n]).id == id
                        && workflows[n].name@ == name;
                assert(n < at);
                assert(front[n] == workflows[n]);
            }
        }
    }
}

/// The summary of a triage has a line for each test that more than one workflow reports, and says
/// so where there is none.
pub proof fn law_shared_tests_are_shown(
    workflows: Seq<Workflow>,
    results: Seq<TriageModel>,
    test: Seq<char>,
)
    ensures
        ({
            let lines = report::correlation_lines(workflows, results);
            &&& (is_shared(workflows, results, TestOutcome::Failed, test) || is_shared(
                workflows,
                results,
                TestOutcome::UnexpectedlyPassed,
                test,
            )) ==> lines.contains(LineModel { text: "  "@ + test, bold: false })
            &&& is_shared(workflows, results, TestOutcome::Failed, test) ==> lines[0] == (LineModel {
                text: "Failed in multiple workflows:"@,
                bold: true,
            })
            &&& is_shared(workflows, results, TestOutcome::UnexpectedlyPassed, test)
                ==> lines.contains(
                LineModel { text: "Unexpectedly passed in multiple workflows:"@, bold: true },
            )
        }),
        (forall|other: Seq<char>, outcome: TestOutcome|
            !(#[trigger] is_shared(workflows, results, outcome, other)))
            ==> report::correlation_lines(workflows, results) == seq![
            LineModel {
                text: "No tests failed or unexpectedly passed in multiple workflows."@,
                bold: false,
            },
        ],
{
    let lines = report::correlation_lines(workflows, results);
    let failed = report::shared_tests(workflows, results, TestOutcome::Failed);
    let passed = report::shared_tests(workflows, results, TestOutcome::UnexpectedlyPassed);
    law_tests_of_two_workflows_are_shared(workflows, results, TestOutcome::Failed, test);
    law_tests_of_two_workflows_are_shared(
        workflows,
        results,
        TestOutcome::UnexpectedlyPassed,
        test,
    );
    let one = report::correlated_lines(
        "Failed in multiple workflows:"@,
        workflows,
        results,
        TestOutcome::Failed,
        failed,
    );
    let gap = if failed.len() > 0 && passed.len() > 0 {
        seq![report::plain_line(Seq::empty())]
    } else {
        Seq::empty()
    };
    let two = report::correlated_lines(
        "Unexpectedly passed in multiple workflows:"@,
        workflows,
        results,
        TestOutcome::UnexpectedlyPassed,
        passed,
    );
    if failed.contains(test) {
        lemma_test_line(workflows, results, TestOutcome::Failed, failed, test);
        let inner = report::tests_lines(workflows, results, TestOutcome::Failed, failed);
        let n = choose|n: int|
            0 <= n < inner.len() && inner[n] == report::plain_line("  "@ + test);
        assert(one[n + 1] == report::plain_line("  "@ + test));
        assert(lines == one + gap + two);
        assert(lines[n + 1] == one[n + 1]);
        assert(lines[0] == one[0]);
    }
    if passed.contains(test) {
        lemma_test_line(workflows, results, TestOutcome::UnexpectedlyPassed, passed, test);
        let inner = report::tests_lines(
            workflows,
            results,
            TestOutcome::UnexpectedlyPassed,
            passed,
        );
        let n = choose|n: int|
            0 <= n < inner.len() && inner[n] == report::plain_line("  "@ + test);
        assert(two[n + 1] == report::plain_line("  "@ + test));
        assert(lines == one + gap + two);
        let at = one.len() + gap.len();
        assert(lines[at + n + 1] == two[n + 1]);
        assert(lines[at as int] == two[0]);
    }
    if forall|other: Seq<char>, outcome: TestOutcome|
        !(#[trigger] is_shared(workflows, results, outcome, other)) {
        if failed.len() > 0 {
            law_tests_of_two_workflows_are_shared(
                workflows,
                results,
                TestOutcome::Failed,
                failed[0],
            );
            assert(failed.contains(failed[0]));
            assert(!is_shared(workflows, results, TestOutcome::Failed, failed[0]));
        }
        if passed.len() > 0 {
            law_tests_of_two_workflows_are_shared(
                workflows,
                results,
                TestOutcome::UnexpectedlyPassed,
                passed[0],
            );
            assert(passed.contains(passed[0]));
            assert(!is_shared(workflows, results, TestOutcome::UnexpectedlyPassed, passed[0]));
        }
    }
}

proof fn lemma_test_line(
    workflows: Seq<Workflow>,
    results: Seq<TriageModel>,
    outcome: TestOutcome,
    tests: Seq<Seq<char>>,
    test: Seq<char>,
)
    requires
        tests.contains(test),
    ensures
        report::tests_lines(workflows, results, outcome, tests).contains(
            report::plain_line("  "@ + test),
        ),
    decreases tests.len(),
{
    let front = tests.drop_last();
    let before = report::tests_lines(workflows, results, outcome, front);
    let more = report::test_lines(
        tests.last(),
        report::affected(workflows, results, outcome, tests.last()),
    );
    let all = report::tests_lines(workflows, results, outcome, tests);
    assert(all == before + more);
    if tests.last() == test {
        assert(more[0] == report::plain_line("  "@ + test));
        assert(all[before.len() as int] == more[0]);
    } else {
        let k = choose|k: int| 0 <= k < tests.len() && tests[k] == test;
        assert(front[k] == test);
        lemma_test_line(workflows, results, outcome, front, test);
        let n = choose|n: int|
            0 <= n < before.len() && before[n] == report::plain_line("  "@ + test);
        assert(all[n] == before[n]);
    }
}

/// The workflows that a shared test was reported of come under it in order, each on a line.
pub proof fn law_affected_workflows_are_listed(test: Seq<char>, names: Seq<Seq<char>>, k: int)
    requires
        0 <= k < names.len(),
    ensures
        report::test_lines(test, names).len() == names.len() + 1,
        report::test_lines(test, names)[0] == (LineModel { text: "  "@ + test, bold: false }),
        report::test_lines(test, names)[k + 1] == (LineModel {
            text: "    - "@ + names[k],
            bold: false,
        }),
{
}

/// A line takes as many rows as it has to: it fits into them, and would not fit into one fewer.
/// A line of no cells takes one.
pub proof fn law_lines_take_rows(cells: usize, columns: int)
    requires
        columns > 0,
    ensures
        ({
            let rows = report::rows_of(cells, columns);
            &&& cells <= rows * columns
            &&& cells > 0 ==> (rows - 1) * columns < cells
            &&& cells == 0 ==> rows == 1
        }),
{
    let filled = if cells == 0 {
        1
    } else {
        cells as int
    };
    let rows = (filled + columns - 1) / columns;
    assert(rows * columns <= filled + columns - 1 < (rows + 1) * columns) by (nonlinear_arith)
        requires
            columns > 0,
            rows == (filled + columns - 1) / columns,
    ;
    assert((rows + 1) * columns == rows * columns + columns) by (nonlinear_arith);
    assert((rows - 1) * columns == rows * columns - columns) by (nonlinear_arith);
    if cells == 0 {
        assert(rows == 1) by (nonlinear_arith)
            requires
                columns > 0,
                rows * columns <= columns,
                rows * columns + columns > columns,
        ;
    }
}

/// A panel is as high as the rows of its lines, which have the width between the borders, and two
/// for the borders.
pub proof fn law_panels_hold_lines(widths: Seq<usize>, cells: usize, width: u16)
    requires
        width > 2,
        report::total_rows(widths.push(cells), width - 2) + 2 <= u16::MAX,
        0 <= report::total_rows(widths, width - 2) <= report::total_rows(
            widths.push(cells),
            width - 2,
        ),
    ensures
        report::height_of(Seq::empty(), width) == 2,
        report::height_of(widths.push(cells), width) == report::height_of(widths, width)
            + report::rows_of(cells, width - 2),
{
    assert(widths.push(cells).drop_last() =~= widths);
}

/// The panels of a triage stand one below the other from a row on, each as wide as the area and as
/// high as it has to be as far as there is room; none reaches below the area.
pub proof fn law_panels_are_stacked(area: Rect, y: int, heights: Seq<u16>, k: int)
    requires
        area.x + area.width <= u16::MAX,
        area.y + area.height <= u16::MAX,
        area.y <= y,
        0 <= k < report::stacked(area, y, heights).len(),
        forall|i: int| 0 <= i < heights.len() ==> #[trigger] heights[i] > 0,
    ensures
        ({
            let panels = report::stacked(area, y, heights);
            let bottom = area.y + area.height;
            &&& panels[0].y == y
            &&& panels[k].x == area.x && panels[k].width == area.width
            &&& panels[k].y + panels[k].height <= bottom
            &&& panels[k].height > 0
            &&& k + 1 < panels.len() ==> panels[k + 1].y == panels[k].y + panels[k].height
            &&& panels[k].height == heights[k] || panels[k].y + panels[k].height == bottom
            &&& panels[k].height <= heights[k]
            &&& panels.len() < heights.len() ==> panels.last().y + panels.last().height == bottom
        }),
    decreases heights.len(),
{
    let panels = report::stacked(area, y, heights);
    let bottom = area.y + area.height;
    report::lemma_stacked_len(area, y, heights);
    assert(heights.len() > 0 && y < bottom);
    assert(heights[0] > 0);
    let height = report::fitted(heights[0], bottom - y);
    let rest = heights.skip(1);
    let below = report::stacked(area, y + height, rest);
    assert(panels =~= seq![panels[0]] + below);
    assert(panels.skip(1) =~= below);
    assert forall|i: int| 0 <= i < rest.len() implies #[trigger] rest[i] > 0 by {
        assert(rest[i] == heights[i + 1]);
    }
    if below.len() > 0 {
        law_panels_are_stacked(
            area,
            y + height,
            rest,
            if k > 0 {
                k - 1
            } else {
                0
            },
        );
        assert(panels.last() == below.last());
        if k > 0 {
            assert(panels[k] == below[k - 1]);
            assert(rest[k - 1] == heights[k]);
        }
        if k + 1 < panels.len() {
            assert(panels[k + 1] == below[k]);
        }
    } else {
        assert(panels.last() == panels[0]);
    }
}

/// The first panel stands at the top of the area and has at least one row.
pub proof fn law_summary_panel_is_on_top(area: Rect, height: u16)
    requires
        area.x + area.width <= u16::MAX,
        area.y + area.height < u16::MAX,
    ensures
        ({
            let panel = report::summary_area(area, height);
            &&& panel.x == area.x && panel.y == area.y && panel.width == area.width
            &&& 0 < height <= area.height ==> panel.height == height
            &&& height > area.height && area.height > 0 ==> panel.height == area.height
            &&& height == 0 || area.height == 0 ==> panel.height == 1
            &&& report::below_summary(area, height) == panel.y + panel.height
        }),
{
}

/// While nothing is known of the workflows, the status bar names the repository that they are
/// loaded of.
pub proof fn law_bar_names_repository(app: AppModel)
    requires
        app.mode == Mode::Normal,
        !app.triage_running,
    ensures
        app.pending_load matches Some(load) ==> {
            let action = if load.kind == LoadKind::Refresh {
                "Refreshing"@
            } else {
                "Loading"@
            };
            let name = load.repository.owner + "/"@ + load.repository.name;
            &&& app.workflows.len() == 0 ==> app.bar().1 == action + " workflows for "@ + name
                + "..."@
            &&& app.workflows.len() > 0 ==> text::begins_with(
                app.bar().1,
                action + " run status for "@ + name,
            )
        },
{
    if let Some(load) = app.pending_load {
        let action = if load.kind == LoadKind::Refresh {
            "Refreshing"@
        } else {
            "Loading"@
        };
        let start = action + " run status for "@ + (load.repository.owner + "/"@
            + load.repository.name);
        if app.workflows.len() > 0 {
            assert(app.bar().1.subrange(0, start.len() as int) =~= start);
        }
    }
}

} // verus!
