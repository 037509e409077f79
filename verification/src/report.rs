//! How the findings of a triage are shown.
use vstd::prelude::*;
use vstd::string::*;

use crate::github::{TriageModel, Workflow, WorkflowTriage};
use crate::layout::{self, Rect};
use crate::state;
use crate::text;

verus! {

broadcast use crate::text::lemma_views_push;

/// How a test ended that is reported.
#[derive(Clone, Copy, Debug, PartialEq, Eq, Structural)]
pub enum TestOutcome {
    Failed,
    UnexpectedlyPassed,
}

/// A line of text that is shown.
#[derive(Debug, PartialEq, Eq)]
pub struct TextLine {
    pub text: String,
    pub bold: bool,
}

/// What a [`TextLine`] shows.
#[verifier::ext_equal]
pub struct LineModel {
    pub text: Seq<char>,
    pub bold: bool,
}

impl View for TextLine {
    type V = LineModel;

    open spec fn view(&self) -> LineModel {
        LineModel { text: self.text@, bold: self.bold }
    }
}

/// What some lines show.
pub open spec fn line_views(lines: Seq<TextLine>) -> Seq<LineModel> {
    lines.map_values(|line: TextLine| line@)
}

/// A line in plain letters.
pub open spec fn plain_line(text: Seq<char>) -> LineModel {
    LineModel { text, bold: false }
}

/// A line in bold letters.
pub open spec fn bold_line(text: Seq<char>) -> LineModel {
    LineModel { text, bold: true }
}

fn push_line(lines: &mut Vec<TextLine>, text: String, bold: bool)
    ensures
        line_views(final(lines)@) == line_views(old(lines)@).push(LineModel { text: text@, bold }),
{
    let ghost before = lines@;
    lines.push(TextLine { text, bold });
    assert(line_views(lines@) =~= line_views(before).push(LineModel { text: text@, bold }));
}

impl Clone for TextLine {
    fn clone(&self) -> (r: Self)
        ensures
            r == *self,
    {
        TextLine { text: self.text.clone(), bold: self.bold }
    }
}

/// A text that is shown.
#[derive(Debug, PartialEq, Eq)]
pub struct Text {
    pub lines: Vec<TextLine>,
}

impl Clone for Text {
    fn clone(&self) -> (r: Self)
        ensures
            r.shown() == self.shown(),
    {
        let mut lines: Vec<TextLine> = Vec::new();
        let mut i: usize = 0;
        while i < self.lines.len()
            invariant
                i <= self.lines@.len(),
                lines@ =~= self.lines@.take(i as int),
            decreases self.lines@.len() - i,
        {
            lines.push(self.lines[i].clone());
            i = i + 1;
        }
        assert(lines@ =~= self.lines@);
        Text { lines }
    }
}

impl Text {
    /// The lines of the text.
    pub open spec fn shown(self) -> Seq<LineModel> {
        line_views(self.lines@)
    }

    /// The text without its style, a line feed between each two lines.
    pub fn to_string(&self) -> (r: String)
        ensures
            r@ == text::joined(self.shown().map_values(|line: LineModel| line.text), "\n"@),
    {
        let ghost all = self.shown().map_values(|line: LineModel| line.text);
        let mut texts: Vec<String> = Vec::new();
        let mut i: usize = 0;
        while i < self.lines.len()
            invariant
                i <= self.lines@.len(),
                all == self.shown().map_values(|line: LineModel| line.text),
                text::views(texts@) =~= all.take(i as int),
            decreases self.lines@.len() - i,
        {
            assert(self.shown()[i as int] == self.lines@[i as int]@);
            texts.push(self.lines[i].text.clone());
            i = i + 1;
        }
        assert(all.take(i as int) =~= all);
        text::join(&texts, "\n")
    }
}

/// The list of tests that is open behind some lines of a summary.
pub open spec fn open_outcome(lines: Seq<Seq<char>>) -> Option<TestOutcome>
    decreases lines.len(),
{
    if lines.len() == 0 {
        None
    } else {
        let line = text::trimmed(lines.last());
        if text::begins_with(line, "Failed Tests ("@) {
            Some(TestOutcome::Failed)
        } else if text::begins_with(line, "Unexpectedly Passed Tests ("@) {
            Some(TestOutcome::UnexpectedlyPassed)
        } else if line.len() == 0 || text::begins_with(line, "**"@) {
            None
        } else {
            open_outcome(lines.drop_last())
        }
    }
}

/// The test that a line of a summary names, where a list of tests is open.
pub open spec fn named_test(line: Seq<char>) -> Option<Seq<char>> {
    if text::begins_with(line, "Failed Tests ("@) || text::begins_with(
        line,
        "Unexpectedly Passed Tests ("@,
    ) || line.len() == 0 || text::begins_with(line, "**"@) {
        None
    } else {
        match text::cut_first(line, "::"@) {
            Some((_, test)) => Some(text::trimmed(test)),
            None => None,
        }
    }
}

/// The tests that the lines of a summary name, each with its outcome.
pub open spec fn tests_in(lines: Seq<Seq<char>>) -> Seq<(TestOutcome, Seq<char>)>
    decreases lines.len(),
{
    if lines.len() == 0 {
        Seq::empty()
    } else {
        let before = tests_in(lines.drop_last());
        let line = text::trimmed(lines.last());
        match (open_outcome(lines.drop_last()), named_test(line)) {
            (Some(outcome), Some(test)) => before.push((outcome, test)),
            _ => before,
        }
    }
}

/// What a list of tests says.
pub open spec fn test_views(tests: Seq<(TestOutcome, String)>) -> Seq<(TestOutcome, Seq<char>)> {
    tests.map_values(|test: (TestOutcome, String)| (test.0, test.1@))
}

/// Reads the tests that a summary names, each with its outcome.
pub fn lit_test_names(summary: &str) -> (r: Vec<(TestOutcome, String)>)
    ensures
        test_views(r@) == tests_in(text::lines_of(summary@)),
{
    let lines = text::lines(summary);
    let ghost all = text::lines_of(summary@);
    let mut outcome: Option<TestOutcome> = None;
    let mut tests: Vec<(TestOutcome, String)> = Vec::new();
    let mut i: usize = 0;
    assert(test_views(tests@) =~= tests_in(all.take(0)));
    while i < lines.len()
        invariant
            i <= lines@.len(),
            all == text::views(lines@),
            outcome == open_outcome(all.take(i as int)),
            test_views(tests@) == tests_in(all.take(i as int)),
        decreases lines@.len() - i,
    {
        assert(all.take(i + 1).drop_last() =~= all.take(i as int));
        assert(all.take(i + 1).last() == lines@[i as int]@);
        let trimmed = text::trim(lines[i].as_str());
        let line = trimmed.as_str();
        if text::starts_with(line, "Failed Tests (") {
            outcome = Some(TestOutcome::Failed);
        } else if text::starts_with(line, "Unexpectedly Passed Tests (") {
            outcome = Some(TestOutcome::UnexpectedlyPassed);
        } else if line.is_empty() || text::starts_with(line, "**") {
            outcome = None;
        } else if let Some(found) = outcome {
            if let Some((_, test)) = text::split_once(line, "::") {
                let ghost before = tests@;
                tests.push((found, text::trim(test.as_str())));
                assert(test_views(tests@) =~= test_views(before).push(
                    (found, text::trimmed(test@)),
                ));
            }
        }
        i = i + 1;
    }
    assert(all.take(i as int) =~= all);
    tests
}

/// The tests of an outcome, among tests with their outcomes.
pub open spec fn tests_with(tests: Seq<(TestOutcome, Seq<char>)>, outcome: TestOutcome) -> Seq<
    Seq<char>,
>
    decreases tests.len(),
{
    if tests.len() == 0 {
        Seq::empty()
    } else {
        let before = tests_with(tests.drop_last(), outcome);
        if tests.last().0 == outcome {
            before.push(tests.last().1)
        } else {
            before
        }
    }
}

/// The tests that ended in a way in a workflow: those listed, and those of its summary.
pub open spec fn workflow_tests(result: TriageModel, outcome: TestOutcome) -> Seq<Seq<char>> {
    let listed = match outcome {
        TestOutcome::Failed => result.failed_tests,
        TestOutcome::UnexpectedlyPassed => result.unexpectedly_passed_tests,
    };
    listed + tests_with(tests_in(text::lines_of(result.lit_summary)), outcome)
}

/// What some results of a triage say.
pub open spec fn result_views(results: Seq<WorkflowTriage>) -> Seq<TriageModel> {
    results.map_values(|result: WorkflowTriage| result@)
}

/// The tests that ended in a way in some of the workflows that are shown.
pub open spec fn shown_tests(
    workflows: Seq<Workflow>,
    results: Seq<TriageModel>,
    outcome: TestOutcome,
) -> Seq<Seq<char>>
    decreases results.len(),
{
    if results.len() == 0 {
        Seq::empty()
    } else {
        let before = shown_tests(workflows, results.drop_last(), outcome);
        if state::last_with_id(workflows, results.last().workflow_id) is Some {
            before + workflow_tests(results.last(), outcome)
        } else {
            before
        }
    }
}

/// The names of the workflows that are shown in which a test ended in a way.
pub open spec fn names_with(
    workflows: Seq<Workflow>,
    results: Seq<TriageModel>,
    outcome: TestOutcome,
    test: Seq<char>,
) -> Seq<Seq<char>>
    decreases results.len(),
{
    if results.len() == 0 {
        Seq::empty()
    } else {
        let before = names_with(workflows, results.drop_last(), outcome, test);
        match state::last_with_id(workflows, results.last().workflow_id) {
            Some(workflow) => if workflow_tests(results.last(), outcome).contains(test) {
                before.push(workflow.name@)
            } else {
                before
            },
            None => before,
        }
    }
}

/// The names of the affected workflows of a test, in order and each once.
pub open spec fn affected(
    workflows: Seq<Workflow>,
    results: Seq<TriageModel>,
    outcome: TestOutcome,
    test: Seq<char>,
) -> Seq<Seq<char>> {
    text::sorted_texts(names_with(workflows, results, outcome, test))
}

/// Whether a result is that of a workflow which is shown, and a test ended in a way in it.
pub open spec fn reported_by(
    workflows: Seq<Workflow>,
    result: TriageModel,
    outcome: TestOutcome,
    test: Seq<char>,
) -> bool {
    state::last_with_id(workflows, result.workflow_id) is Some && workflow_tests(
        result,
        outcome,
    ).contains(test)
}

/// Whether a test ended in a way in more than one of the workflows that are shown.
pub open spec fn shared(
    workflows: Seq<Workflow>,
    results: Seq<TriageModel>,
    outcome: TestOutcome,
    test: Seq<char>,
) -> bool {
    exists|i: int, j: int|
        0 <= i < results.len() && 0 <= j < results.len() && results[i].workflow_id
            != results[j].workflow_id && #[trigger] reported_by(
            workflows,
            results[i],
            outcome,
            test,
        ) && #[trigger] reported_by(workflows, results[j], outcome, test)
}

/// The tests among some that ended in a way in more than one workflow.
pub open spec fn shared_among(
    workflows: Seq<Workflow>,
    results: Seq<TriageModel>,
    outcome: TestOutcome,
    tests: Seq<Seq<char>>,
) -> Seq<Seq<char>> {
    tests.filter(|test: Seq<char>| shared(workflows, results, outcome, test))
}

/// The tests that ended in a way in more than one workflow, in order and each once.
pub open spec fn shared_tests(
    workflows: Seq<Workflow>,
    results: Seq<TriageModel>,
    outcome: TestOutcome,
) -> Seq<Seq<char>> {
    shared_among(
        workflows,
        results,
        outcome,
        text::sorted_texts(shown_tests(workflows, results, outcome)),
    )
}

/// The lines of a test and its affected workflows.
pub open spec fn test_lines(test: Seq<char>, names: Seq<Seq<char>>) -> Seq<LineModel> {
    seq![plain_line("  "@ + test)] + names.map_values(
        |name: Seq<char>| plain_line("    - "@ + name),
    )
}

/// The lines of some tests and their affected workflows.
pub open spec fn tests_lines(
    workflows: Seq<Workflow>,
    results: Seq<TriageModel>,
    outcome: TestOutcome,
    tests: Seq<Seq<char>>,
) -> Seq<LineModel>
    decreases tests.len(),
{
    if tests.len() == 0 {
        Seq::empty()
    } else {
        tests_lines(workflows, results, outcome, tests.drop_last()) + test_lines(
            tests.last(),
            affected(workflows, results, outcome, tests.last()),
        )
    }
}

/// A heading with the lines of some tests, where there are tests.
pub open spec fn correlated_lines(
    heading: Seq<char>,
    workflows: Seq<Workflow>,
    results: Seq<TriageModel>,
    outcome: TestOutcome,
    tests: Seq<Seq<char>>,
) -> Seq<LineModel> {
    if tests.len() == 0 {
        Seq::empty()
    } else {
        seq![bold_line(heading)] + tests_lines(workflows, results, outcome, tests)
    }
}

/// What is shown of the tests that more than one workflow reports.
pub open spec fn correlation_lines(
    workflows: Seq<Workflow>,
    results: Seq<TriageModel>,
) -> Seq<LineModel> {
    let failed = shared_tests(workflows, results, TestOutcome::Failed);
    let passed = shared_tests(workflows, results, TestOutcome::UnexpectedlyPassed);
    if failed.len() == 0 && passed.len() == 0 {
        seq![plain_line("No tests failed or unexpectedly passed in multiple workflows."@)]
    } else {
        correlated_lines(
            "Failed in multiple workflows:"@,
            workflows,
            results,
            TestOutcome::Failed,
            failed,
        ) + (if failed.len() > 0 && passed.len() > 0 {
            seq![plain_line(Seq::empty())]
        } else {
            Seq::empty()
        }) + correlated_lines(
            "Unexpectedly passed in multiple workflows:"@,
            workflows,
            results,
            TestOutcome::UnexpectedlyPassed,
            passed,
        )
    }
}

fn tests_of(result: &WorkflowTriage, outcome: TestOutcome) -> (r: Vec<String>)
    ensures
        text::views(r@) == workflow_tests(result@, outcome),
{
    let listed = match outcome {
        TestOutcome::Failed => &result.failed_tests,
        TestOutcome::UnexpectedlyPassed => &result.unexpectedly_passed_tests,
    };
    let mut r = text::clone_texts(listed);
    let ghost first = text::views(r@);
    let tests = lit_test_names(result.lit_summary.as_str());
    let ghost all = test_views(tests@);
    let mut i: usize = 0;
    assert(text::views(r@) =~= first + tests_with(all.take(0), outcome));
    while i < tests.len()
        invariant
            i <= tests@.len(),
            all == test_views(tests@),
            text::views(r@) == first + tests_with(all.take(i as int), outcome),
        decreases tests@.len() - i,
    {
        assert(all.take(i + 1).drop_last() =~= all.take(i as int));
        assert(all.take(i + 1).last() == (tests@[i as int].0, tests@[i as int].1@));
        if tests[i].0 == outcome {
            r.push(tests[i].1.clone());
            assert(text::views(r@) =~= first + tests_with(all.take(i + 1), outcome));
        }
        i = i + 1;
    }
    assert(all.take(i as int) =~= all);
    r
}

fn name_of(workflows: &Vec<Workflow>, id: u64) -> (r: Option<String>)
    ensures
        match state::last_with_id(workflows@, id) {
            Some(workflow) => r matches Some(name) && name@ == workflow.name@,
            None => r is None,
        },
{
    match state::find_last(workflows, id) {
        Some(i) => Some(workflows[i].name.clone()),
        None => None,
    }
}

fn gather_tests(workflows: &Vec<Workflow>, results: &Vec<WorkflowTriage>, outcome: TestOutcome) -> (r:
    Vec<String>)
    ensures
        text::views(r@) == shown_tests(workflows@, result_views(results@), outcome),
{
    let ghost all = result_views(results@);
    let mut r: Vec<String> = Vec::new();
    let mut i: usize = 0;
    assert(text::views(r@) =~= shown_tests(workflows@, all.take(0), outcome));
    while i < results.len()
        invariant
            i <= results@.len(),
            all == result_views(results@),
            text::views(r@) == shown_tests(workflows@, all.take(i as int), outcome),
        decreases results@.len() - i,
    {
        assert(all.take(i + 1).drop_last() =~= all.take(i as int));
        assert(all.take(i + 1).last() == results@[i as int]@);
        if state::find_last(workflows, results[i].workflow_id).is_some() {
            text::push_texts(&mut r, &tests_of(&results[i], outcome));
        }
        i = i + 1;
    }
    assert(all.take(i as int) =~= all);
    r
}

fn has_text(list: &Vec<String>, t: &str) -> (r: bool)
    ensures
        r == text::views(list@).contains(t@),
{
    let ghost all = text::views(list@);
    let mut i: usize = 0;
    while i < list.len()
        invariant
            i <= list@.len(),
            all == text::views(list@),
            forall|j: int| 0 <= j < i ==> all[j] != t@,
        decreases list@.len() - i,
    {
        assert(all[i as int] == list@[i as int]@);
        if text::same(list[i].as_str(), t) {
            return true;
        }
        i = i + 1;
    }
    false
}

fn affected_names(
    workflows: &Vec<Workflow>,
    results: &Vec<WorkflowTriage>,
    outcome: TestOutcome,
    test: &str,
) -> (r: Vec<String>)
    ensures
        text::views(r@) == affected(workflows@, result_views(results@), outcome, test@),
{
    let ghost all = result_views(results@);
    let mut r: Vec<String> = Vec::new();
    let mut i: usize = 0;
    assert(text::views(r@) =~= names_with(workflows@, all.take(0), outcome, test@));
    while i < results.len()
        invariant
            i <= results@.len(),
            all == result_views(results@),
            text::views(r@) == names_with(workflows@, all.take(i as int), outcome, test@),
        decreases results@.len() - i,
    {
        assert(all.take(i + 1).drop_last() =~= all.take(i as int));
        assert(all.take(i + 1).last() == results@[i as int]@);
        if let Some(name) = name_of(workflows, results[i].workflow_id) {
            if has_text(&tests_of(&results[i], outcome), test) {
                r.push(name);
            }
        }
        i = i + 1;
    }
    assert(all.take(i as int) =~= all);
    text::sort_dedup(&r)
}

fn is_shared(
    workflows: &Vec<Workflow>,
    results: &Vec<WorkflowTriage>,
    outcome: TestOutcome,
    test: &str,
) -> (r: bool)
    ensures
        r == shared(workflows@, result_views(results@), outcome, test@),
{
    let ghost all = result_views(results@);
    let mut reporter: Option<u64> = None;
    let mut i: usize = 0;
    while i < results.len()
        invariant
            i <= results@.len(),
            all == result_views(results@),
            forall|k: int|
                0 <= k < i && #[trigger] reported_by(workflows@, all[k], outcome, test@)
                    ==> reporter == Some(all[k].workflow_id),
            reporter is Some ==> exists|k: int|
                0 <= k < i && all[k].workflow_id == reporter->0 && #[trigger] reported_by(
                    workflows@,
                    all[k],
                    outcome,
                    test@,
                ),
        decreases results@.len() - i,
    {
        let result = &results[i];
        assert(all[i as int] == result@);
        if state::find_last(workflows, result.workflow_id).is_some() && has_text(
            &tests_of(result, outcome),
            test,
        ) {
            assert(reported_by(workflows@, all[i as int], outcome, test@));
            match reporter {
                Some(id) => if id != result.workflow_id {
                    assert(shared(workflows@, all, outcome, test@));
                    return true;
                },
                None => {
                    reporter = Some(result.workflow_id);
                },
            }
        }
        i = i + 1;
    }
    false
}

fn find_shared(workflows: &Vec<Workflow>, results: &Vec<WorkflowTriage>, outcome: TestOutcome) -> (r:
    Vec<String>)
    ensures
        text::views(r@) == shared_tests(workflows@, result_views(results@), outcome),
{
    let ghost models = result_views(results@);
    let tests = text::sort_dedup(&gather_tests(workflows, results, outcome));
    let ghost all = text::views(tests@);
    let ghost test_shared = |test: Seq<char>| shared(workflows@, models, outcome, test);
    let mut r: Vec<String> = Vec::new();
    let mut i: usize = 0;
    assert(text::views(r@) =~= all.take(0).filter(test_shared)) by {
        reveal(Seq::filter);
    }
    while i < tests.len()
        invariant
            i <= tests@.len(),
            all == text::views(tests@),
            models == result_views(results@),
            test_shared == (|test: Seq<char>| shared(workflows@, models, outcome, test)),
            text::views(r@) == all.take(i as int).filter(test_shared),
        decreases tests@.len() - i,
    {
        proof {
            reveal(Seq::filter);
            assert(all.take(i + 1).drop_last() =~= all.take(i as int));
            assert(all.take(i + 1).last() == tests@[i as int]@);
        }
        if is_shared(workflows, results, outcome, tests[i].as_str()) {
            r.push(tests[i].clone());
        }
        i = i + 1;
    }
    assert(all.take(i as int) =~= all);
    r
}

fn append_correlated_tests(
    lines: &mut Vec<TextLine>,
    heading: &str,
    workflows: &Vec<Workflow>,
    results: &Vec<WorkflowTriage>,
    outcome: TestOutcome,
    tests: &Vec<String>,
)
    ensures
        line_views(final(lines)@) == line_views(old(lines)@) + correlated_lines(
            heading@,
            workflows@,
            result_views(results@),
            outcome,
            text::views(tests@),
        ),
{
    let ghost first = line_views(lines@);
    let ghost models = result_views(results@);
    let ghost all = text::views(tests@);
    if tests.len() == 0 {
        assert(line_views(lines@) =~= first + Seq::<LineModel>::empty());
        return;
    }
    push_line(lines, heading.to_owned(), true);
    let ghost head = first.push(bold_line(heading@));
    let mut i: usize = 0;
    assert(line_views(lines@) =~= head + tests_lines(workflows@, models, outcome, all.take(0)));
    while i < tests.len()
        invariant
            i <= tests@.len(),
            all == text::views(tests@),
            models == result_views(results@),
            line_views(lines@) == head + tests_lines(
                workflows@,
                models,
                outcome,
                all.take(i as int),
            ),
        decreases tests@.len() - i,
    {
        assert(all.take(i + 1).drop_last() =~= all.take(i as int));
        assert(all.take(i + 1).last() == tests@[i as int]@);
        let ghost before = line_views(lines@);
        let test = tests[i].as_str();
        push_line(lines, text::concat("  ", test), false);
        let names = affected_names(workflows, results, outcome, test);
        let ghost name_lines = text::views(names@).map_values(
            |name: Seq<char>| plain_line("    - "@ + name),
        );
        let ghost with_test = before.push(plain_line("  "@ + test@));
        let mut j: usize = 0;
        assert(line_views(lines@) =~= with_test + name_lines.take(0));
        while j < names.len()
            invariant
                j <= names@.len(),
                name_lines == text::views(names@).map_values(
                    |name: Seq<char>| plain_line("    - "@ + name),
                ),
                line_views(lines@) =~= with_test + name_lines.take(j as int),
            decreases names@.len() - j,
        {
            assert(text::views(names@)[j as int] == names@[j as int]@);
            push_line(lines, text::concat("    - ", names[j].as_str()), false);
            j = j + 1;
        }
        assert(name_lines.take(j as int) =~= name_lines);
        assert(line_views(lines@) =~= before + test_lines(test@, text::views(names@)));
        assert(line_views(lines@) =~= head + tests_lines(
            workflows@,
            models,
            outcome,
            all.take(i + 1),
        ));
        i = i + 1;
    }
    assert(all.take(i as int) =~= all);
    assert(line_views(lines@) =~= first + correlated_lines(
        heading@,
        workflows@,
        models,
        outcome,
        all,
    ));
}

/// Shows the tests that more than one workflow reports.
pub fn triage_correlation_summary(workflows: &Vec<Workflow>, triage: &Vec<WorkflowTriage>) -> (r:
    Text)
    ensures
        r.shown() == correlation_lines(workflows@, result_views(triage@)),
{
    let failed = find_shared(workflows, triage, TestOutcome::Failed);
    let unexpectedly_passed = find_shared(workflows, triage, TestOutcome::UnexpectedlyPassed);
    assert(text::views(failed@).len() == failed@.len());
    assert(text::views(unexpectedly_passed@).len() == unexpectedly_passed@.len());
    let mut lines: Vec<TextLine> = Vec::new();
    assert(line_views(lines@) =~= Seq::<LineModel>::empty());
    if failed.len() == 0 && unexpectedly_passed.len() == 0 {
        push_line(
            &mut lines,
            "No tests failed or unexpectedly passed in multiple workflows.".to_owned(),
            false,
        );
        assert(line_views(lines@) =~= correlation_lines(workflows@, result_views(triage@)));
        return Text { lines };
    }
    append_correlated_tests(
        &mut lines,
        "Failed in multiple workflows:",
        workflows,
        triage,
        TestOutcome::Failed,
        &failed,
    );
    if failed.len() > 0 && unexpectedly_passed.len() > 0 {
        let empty = String::new();
        assert(empty@ =~= Seq::<char>::empty());
        push_line(&mut lines, empty, false);
    }
    append_correlated_tests(
        &mut lines,
        "Unexpectedly passed in multiple workflows:",
        workflows,
        triage,
        TestOutcome::UnexpectedlyPassed,
        &unexpectedly_passed,
    );
    assert(line_views(lines@) =~= correlation_lines(workflows@, result_views(triage@)));
    Text { lines }
}

/// A blank line, a heading and some lines, where there are lines.
pub open spec fn section(heading: Seq<char>, lines: Seq<LineModel>) -> Seq<LineModel> {
    if lines.len() == 0 {
        Seq::empty()
    } else {
        seq![plain_line(Seq::empty()), bold_line(heading)] + lines
    }
}

/// A line for each test.
pub open spec fn bullet_lines(tests: Seq<Seq<char>>) -> Seq<LineModel> {
    tests.map_values(|test: Seq<char>| plain_line("  - "@ + test))
}

/// What is shown of a workflow that was triaged.
pub open spec fn triage_lines(triage: Option<TriageModel>) -> Seq<LineModel> {
    match triage {
        None => seq![plain_line("(triage details unavailable)"@)],
        Some(triage) => seq![
            plain_line("Failed jobs: "@ + triage.failed_jobs),
            plain_line("Failed steps: "@ + triage.failed_steps),
        ] + section("Failed tests:"@, bullet_lines(triage.failed_tests)) + section(
            "Unexpectedly passed tests:"@,
            bullet_lines(triage.unexpectedly_passed_tests),
        ) + section(
            "lit summary:"@,
            text::lines_of(triage.lit_summary).map_values(|line: Seq<char>| plain_line(line)),
        ),
    }
}

fn push_section(lines: &mut Vec<TextLine>, heading: &str, prefix: &str, items: &Vec<String>)
    ensures
        line_views(final(lines)@) == line_views(old(lines)@) + section(
            heading@,
            text::views(items@).map_values(|item: Seq<char>| plain_line(prefix@ + item)),
        ),
{
    let ghost first = line_views(lines@);
    let ghost all = text::views(items@).map_values(
        |item: Seq<char>| plain_line(prefix@ + item),
    );
    if items.len() == 0 {
        assert(line_views(lines@) =~= first + section(heading@, all));
        return;
    }
    let empty = String::new();
    assert(empty@ =~= Seq::<char>::empty());
    push_line(lines, empty, false);
    push_line(lines, heading.to_owned(), true);
    let ghost head = first + seq![plain_line(Seq::empty()), bold_line(heading@)];
    let mut i: usize = 0;
    assert(line_views(lines@) =~= head + all.take(0));
    while i < items.len()
        invariant
            i <= items@.len(),
            all == text::views(items@).map_values(
                |item: Seq<char>| plain_line(prefix@ + item),
            ),
            line_views(lines@) =~= head + all.take(i as int),
        decreases items@.len() - i,
    {
        assert(text::views(items@)[i as int] == items@[i as int]@);
        push_line(lines, text::concat(prefix, items[i].as_str()), false);
        i = i + 1;
    }
    assert(all.take(i as int) =~= all);
    assert(line_views(lines@) =~= first + section(heading@, all));
}

/// What an optional result says.
pub open spec fn optional_result(triage: Option<&WorkflowTriage>) -> Option<TriageModel> {
    match triage {
        Some(triage) => Some(triage@),
        None => None,
    }
}

/// Shows a workflow that was triaged.
pub fn triage_text(triage: Option<&WorkflowTriage>) -> (r: Text)
    ensures
        r.shown() == triage_lines(optional_result(triage)),
{
    let mut lines: Vec<TextLine> = Vec::new();
    assert(line_views(lines@) =~= Seq::<LineModel>::empty());
    let triage = match triage {
        Some(triage) => triage,
        None => {
            push_line(&mut lines, "(triage details unavailable)".to_owned(), false);
            assert(line_views(lines@) =~= triage_lines(None));
            return Text { lines };
        },
    };
    push_line(&mut lines, text::concat("Failed jobs: ", triage.failed_jobs.as_str()), false);
    push_line(&mut lines, text::concat("Failed steps: ", triage.failed_steps.as_str()), false);
    assert(line_views(lines@) =~= seq![
        plain_line("Failed jobs: "@ + triage@.failed_jobs),
        plain_line("Failed steps: "@ + triage@.failed_steps),
    ]);
    push_section(&mut lines, "Failed tests:", "  - ", &triage.failed_tests);
    push_section(
        &mut lines,
        "Unexpectedly passed tests:",
        "  - ",
        &triage.unexpectedly_passed_tests,
    );
    let summary = text::lines(triage.lit_summary.as_str());
    push_section(&mut lines, "lit summary:", "", &summary);
    proof {
        reveal_strlit("");
        let all = text::lines_of(triage@.lit_summary);
        assert(all.map_values(|item: Seq<char>| plain_line(""@ + item)) =~= all.map_values(
            |line: Seq<char>| plain_line(line),
        )) by {
            assert forall|i: int| 0 <= i < all.len() implies #[trigger] plain_line(""@ + all[i])
                == plain_line(all[i]) by {
                assert(""@ + all[i] =~= all[i]);
            }
        }
    }
    Text { lines }
}

/// The cells that a line takes on the screen.
pub uninterp spec fn display_width(line: Seq<char>) -> usize;

/// `ratatui::text::Line::width`, of the line that `Line::from` makes of a text: the cells that
/// Unicode's tables give its characters, which depend on the text alone.
#[verifier::external_body]
fn line_width(line: &str) -> (r: usize)
    ensures
        r == display_width(line@),
{
    ratatui::text::Line::from(line).width()
}

/// The rows that a line of some cells takes where rows have `columns` cells; at least one.
pub open spec fn rows_of(cells: usize, columns: int) -> int {
    let filled = if cells == 0 {
        1
    } else {
        cells as int
    };
    (filled + columns - 1) / columns
}

/// The rows that some lines take.
pub open spec fn total_rows(widths: Seq<usize>, columns: int) -> int
    decreases widths.len(),
{
    if widths.len() == 0 {
        0
    } else {
        total_rows(widths.drop_last(), columns) + rows_of(widths.last(), columns)
    }
}

/// The height of a bordered panel of some width that holds some lines.
pub open spec fn height_of(widths: Seq<usize>, width: u16) -> int {
    let columns = if width <= 3 {
        1
    } else {
        width - 2
    };
    let rows = total_rows(widths, columns);
    layout::bounded(
        if rows > u16::MAX {
            u16::MAX as int
        } else {
            rows
        },
        2,
    )
}

proof fn lemma_total_rows(widths: Seq<usize>, columns: int, upto: int)
    requires
        0 <= upto <= widths.len(),
        columns > 0,
    ensures
        0 <= total_rows(widths.take(upto), columns) <= total_rows(widths, columns),
    decreases widths.len(),
{
    if upto == widths.len() {
        assert(widths.take(upto) =~= widths);
        if upto > 0 {
            lemma_total_rows(widths.drop_last(), columns, upto - 1);
            lemma_rows(widths.last(), columns);
        }
    } else {
        lemma_total_rows(widths.drop_last(), columns, upto);
        assert(widths.drop_last().take(upto) =~= widths.take(upto));
        lemma_rows(widths.last(), columns);
    }
}

proof fn lemma_rows(cells: usize, columns: int)
    requires
        columns > 0,
    ensures
        rows_of(cells, columns) >= 0,
{
    let filled = if cells == 0 {
        1
    } else {
        cells as int
    };
    assert((filled + columns - 1) / columns >= 0) by (nonlinear_arith)
        requires
            filled >= 1,
            columns > 0,
    ;
}

/// Computes the height of a bordered panel of some width that holds lines of some widths.
pub fn block_height(widths: &Vec<usize>, width: u16) -> (r: u16)
    ensures
        r == height_of(widths@, width),
{
    let columns: u128 = if width <= 3 {
        1
    } else {
        (width - 2) as u128
    };
    let mut rows: u128 = 0;
    let mut i: usize = 0;
    while i < widths.len()
        invariant
            i <= widths@.len(),
            columns > 0,
            columns == (if width <= 3 {
                1
            } else {
                width - 2
            }),
            rows == total_rows(widths@.take(i as int), columns as int),
            rows <= u16::MAX,
        decreases widths@.len() - i,
    {
        assert(widths@.take(i + 1).drop_last() =~= widths@.take(i as int));
        let cells: u128 = if widths[i] == 0 {
            1
        } else {
            widths[i] as u128
        };
        let more: u128 = (cells + columns - 1) / columns;
        assert(more == rows_of(widths@[i as int], columns as int));
        assert(more <= cells) by (nonlinear_arith)
            requires
                more == (cells + columns - 1) / (columns as int),
                columns >= 1,
                cells >= 1,
        ;
        if rows + more > u16::MAX as u128 {
            proof {
                lemma_total_rows(widths@, columns as int, i + 1);
            }
            return u16::MAX;
        }
        rows = rows + more;
        i = i + 1;
    }
    assert(widths@.take(i as int) =~= widths@);
    layout::bounded_sum(rows as u16, 2)
}

/// The cells that some lines take on the screen.
pub open spec fn widths_of(lines: Seq<LineModel>) -> Seq<usize> {
    lines.map_values(|line: LineModel| display_width(line.text))
}

/// Computes the height of a bordered panel of some width that shows a text.
pub fn triage_block_height(text: &Text, width: u16) -> (r: u16)
    ensures
        r == height_of(widths_of(text.shown()), width),
{
    let ghost all = widths_of(text.shown());
    let mut widths: Vec<usize> = Vec::new();
    let mut i: usize = 0;
    while i < text.lines.len()
        invariant
            i <= text.lines@.len(),
            all == widths_of(text.shown()),
            widths@ =~= all.take(i as int),
        decreases text.lines@.len() - i,
    {
        assert(text.shown()[i as int] == text.lines@[i as int]@);
        widths.push(line_width(text.lines[i].text.as_str()));
        i = i + 1;
    }
    assert(all.take(i as int) =~= all);
    block_height(&widths, width)
}

/// The height that a panel gets where some rows are left: its own height as far as there is
/// room, and at least one row.
pub open spec fn fitted(height: u16, room: int) -> int {
    if height == 0 || room <= 0 {
        1
    } else if height > room {
        room
    } else {
        height as int
    }
}

/// The areas of panels of some heights, one below the other from row `y` on, as far as there is
/// room in an area.
pub open spec fn stacked(area: Rect, y: int, heights: Seq<u16>) -> Seq<Rect>
    decreases heights.len(),
{
    if heights.len() == 0 || y >= area.bottom_of() {
        Seq::empty()
    } else {
        let height = fitted(heights[0], area.bottom_of() - y);
        seq![
            Rect {
                x: area.x,
                y: y as u16,
                width: (area.right_of() - area.x) as u16,
                height: height as u16,
            },
        ] + stacked(area, layout::bounded(y, height), heights.skip(1))
    }
}

/// No more panels are placed than there are.
pub proof fn lemma_stacked_len(area: Rect, y: int, heights: Seq<u16>)
    ensures
        stacked(area, y, heights).len() <= heights.len(),
    decreases heights.len(),
{
    if heights.len() > 0 && y < area.bottom_of() {
        let height = fitted(heights[0], area.bottom_of() - y);
        lemma_stacked_len(area, layout::bounded(y, height), heights.skip(1));
    }
}

/// The area of the panel with the tests that more than one workflow reports: it stands at the
/// top, and always has a row.
pub open spec fn summary_area(area: Rect, height: u16) -> Rect {
    Rect {
        x: area.x,
        y: area.y,
        width: (area.right_of() - area.x) as u16,
        height: (layout::bounded(area.y as int, fitted(height, area.height as int)) - area.y) as u16,
    }
}

/// The row behind the first panel.
pub open spec fn below_summary(area: Rect, height: u16) -> int {
    layout::bounded(area.y as int, fitted(height, area.height as int))
}

fn fit(height: u16, room: u16) -> (r: u16)
    ensures
        r == fitted(height, room as int),
{
    if height == 0 || room == 0 {
        1
    } else if height > room {
        room
    } else {
        height
    }
}

/// Places the panels of a triage: the first one at the top of an area, and those of the
/// workflows from the selected one on below it, as far as there is room.
pub fn triage_panels(area: Rect, summary_height: u16, heights: &Vec<u16>) -> (r: (Rect, Vec<Rect>))
    ensures
        r.0 == summary_area(area, summary_height),
        r.1@ == stacked(area, below_summary(area, summary_height), heights@),
{
    let height = fit(summary_height, area.height);
    let summary = Rect::new(area.x, area.y, area.width, height);
    let bottom = area.bottom();
    let mut y: u16 = layout::bounded_sum(area.y, height);
    let ghost all = stacked(area, below_summary(area, summary_height), heights@);
    let mut panels: Vec<Rect> = Vec::new();
    let mut i: usize = 0;
    assert(heights@.skip(0) =~= heights@);
    assert(panels@ + all =~= all);
    while i < heights.len() && y < bottom
        invariant
            i <= heights@.len(),
            bottom == area.bottom_of(),
            panels@ + stacked(area, y as int, heights@.skip(i as int)) == all,
        decreases heights@.len() - i,
    {
        let ghost before = panels@;
        let height = fit(heights[i], bottom - y);
        let panel = Rect::new(area.x, y, area.width, height);
        panels.push(panel);
        assert(heights@.skip(i as int).skip(1) =~= heights@.skip(i + 1));
        assert(panels@ + stacked(area, y + height, heights@.skip(i + 1)) =~= before + (seq![panel]
            + stacked(area, y + height, heights@.skip(i + 1))));
        y = layout::bounded_sum(y, height);
        i = i + 1;
    }
    assert(panels@ =~= all);
    (summary, panels)
}

proof fn lemma_names_with(
    workflows: Seq<Workflow>,
    results: Seq<TriageModel>,
    outcome: TestOutcome,
    test: Seq<char>,
    name: Seq<char>,
)
    ensures
        names_with(workflows, results, outcome, test).contains(name) == (exists|i: int|
            0 <= i < results.len() && #[trigger] reports(
                workflows,
                results[i],
                outcome,
                test,
                name,
            )),
    decreases results.len(),
{
    let all = names_with(workflows, results, outcome, test);
    if results.len() > 0 {
        let front = results.drop_last();
        let before = names_with(workflows, front, outcome, test);
        lemma_names_with(workflows, front, outcome, test, name);
        if before.contains(name) {
            let i = choose|i: int|
                0 <= i < front.len() && #[trigger] reports(
                    workflows,
                    front[i],
                    outcome,
                    test,
                    name,
                );
            assert(reports(workflows, results[i], outcome, test, name));
            let k = choose|k: int| 0 <= k < before.len() && before[k] == name;
            assert(all[k] == name);
        }
        if reports(workflows, results.last(), outcome, test, name) {
            assert(all[before.len() as int] == name);
            assert(reports(workflows, results[results.len() - 1], outcome, test, name));
        }
        if exists|i: int|
            0 <= i < results.len() && #[trigger] reports(
                workflows,
                results[i],
                outcome,
                test,
                name,
            ) {
            let i = choose|i: int|
                0 <= i < results.len() && #[trigger] reports(
                    workflows,
                    results[i],
                    outcome,
                    test,
                    name,
                );
            if i < front.len() {
                assert(reports(workflows, front[i], outcome, test, name));
            }
        }
        if all.contains(name) && !before.contains(name) {
            let k = choose|k: int| 0 <= k < all.len() && all[k] == name;
            if k < before.len() {
                assert(before[k] == name);
            }
        }
    }
}

/// Whether a result is that of a workflow of some name which is shown, and a test ended in a
/// way in it.
pub open spec fn reports(
    workflows: Seq<Workflow>,
    result: TriageModel,
    outcome: TestOutcome,
    test: Seq<char>,
    name: Seq<char>,
) -> bool {
    match state::last_with_id(workflows, result.workflow_id) {
        Some(workflow) => workflow.name@ == name && workflow_tests(result, outcome).contains(test),
        None => false,
    }
}

proof fn lemma_shown_tests(
    workflows: Seq<Workflow>,
    results: Seq<TriageModel>,
    outcome: TestOutcome,
    test: Seq<char>,
)
    ensures
        shown_tests(workflows, results, outcome).contains(test) == (names_with(
            workflows,
            results,
            outcome,
            test,
        ).len() > 0),
    decreases results.len(),
{
    if results.len() > 0 {
        let front = results.drop_last();
        let before = shown_tests(workflows, front, outcome);
        let more = workflow_tests(results.last(), outcome);
        lemma_shown_tests(workflows, front, outcome, test);
        text::lemma_contains_sum(before, more, test);
    }
}

/// A test is shown as shared exactly where at least two of the workflows that are shown report
/// it, and the names under it are those of the workflows that report it.
pub proof fn law_shared_tests(
    workflows: Seq<Workflow>,
    results: Seq<TriageModel>,
    outcome: TestOutcome,
    test: Seq<char>,
)
    ensures
        shared_tests(workflows, results, outcome).contains(test) == shared(
            workflows,
            results,
            outcome,
            test,
        ),
        forall|name: Seq<char>|
            #[trigger] affected(workflows, results, outcome, test).contains(name) == (exists|i: int|
                0 <= i < results.len() && #[trigger] reports(
                    workflows,
                    results[i],
                    outcome,
                    test,
                    name,
                )),
        text::increasing(affected(workflows, results, outcome, test)),
        text::increasing(shared_tests(workflows, results, outcome)),
{
    let names = names_with(workflows, results, outcome, test);
    let some = affected(workflows, results, outcome, test);
    let tests = shown_tests(workflows, results, outcome);
    let sorted = text::sorted_texts(tests);
    text::lemma_sorted_texts(names);
    text::lemma_sorted_texts(tests);
    lemma_shown_tests(workflows, results, outcome, test);
    assert forall|name: Seq<char>| #[trigger] some.contains(name) == (exists|i: int|
        0 <= i < results.len() && #[trigger] reports(
            workflows,
            results[i],
            outcome,
            test,
            name,
        )) by {
        lemma_names_with(workflows, results, outcome, test, name);
    }
    let test_shared = |t: Seq<char>| shared(workflows, results, outcome, t);
    text::lemma_filter_increasing(sorted, test_shared);
    if shared(workflows, results, outcome, test) {
        let (i, _) = choose|i: int, j: int|
            0 <= i < results.len() && 0 <= j < results.len() && results[i].workflow_id
                != results[j].workflow_id && #[trigger] reported_by(
                workflows,
                results[i],
                outcome,
                test,
            ) && #[trigger] reported_by(workflows, results[j], outcome, test);
        let name = state::last_with_id(workflows, results[i].workflow_id)->0.name@;
        assert(reports(workflows, results[i], outcome, test, name));
        lemma_names_with(workflows, results, outcome, test, name);
    }
}

proof fn lemma_same_members(
    workflows: Seq<Workflow>,
    a: Seq<TriageModel>,
    b: Seq<TriageModel>,
    outcome: TestOutcome,
    test: Seq<char>,
)
    requires
        forall|r: TriageModel| a.contains(r) == b.contains(r),
    ensures
        affected(workflows, a, outcome, test) == affected(workflows, b, outcome, test),
        names_with(workflows, a, outcome, test).len() > 0 ==> names_with(
            workflows,
            b,
            outcome,
            test,
        ).len() > 0,
{
    law_shared_tests(workflows, a, outcome, test);
    law_shared_tests(workflows, b, outcome, test);
    let x = affected(workflows, a, outcome, test);
    let y = affected(workflows, b, outcome, test);
    assert forall|name: Seq<char>| x.contains(name) == y.contains(name) by {
        if x.contains(name) {
            let i = choose|i: int|
                0 <= i < a.len() && #[trigger] reports(workflows, a[i], outcome, test, name);
            assert(a.contains(a[i]));
            let k = choose|k: int| 0 <= k < b.len() && b[k] == a[i];
            assert(reports(workflows, b[k], outcome, test, name));
        }
        if y.contains(name) {
            let i = choose|i: int|
                0 <= i < b.len() && #[trigger] reports(workflows, b[i], outcome, test, name);
            assert(b.contains(b[i]));
            let k = choose|k: int| 0 <= k < a.len() && a[k] == b[i];
            assert(reports(workflows, a[k], outcome, test, name));
        }
    }
    text::lemma_increasing_unique(x, y);
    let names = names_with(workflows, a, outcome, test);
    let others = names_with(workflows, b, outcome, test);
    text::lemma_sorted_texts(names);
    text::lemma_sorted_texts(others);
    if names.len() > 0 {
        assert(names.contains(names[0]));
        assert(x.contains(names[0]));
        assert(others.contains(names[0]));
    }
}

proof fn lemma_shared_stays(
    workflows: Seq<Workflow>,
    a: Seq<TriageModel>,
    b: Seq<TriageModel>,
    outcome: TestOutcome,
    test: Seq<char>,
)
    requires
        forall|r: TriageModel| a.contains(r) == b.contains(r),
        shared(workflows, a, outcome, test),
    ensures
        shared(workflows, b, outcome, test),
{
    let (i, j) = choose|i: int, j: int|
        0 <= i < a.len() && 0 <= j < a.len() && a[i].workflow_id != a[j].workflow_id
            && #[trigger] reported_by(workflows, a[i], outcome, test) && #[trigger] reported_by(
            workflows,
            a[j],
            outcome,
            test,
        );
    assert(a.contains(a[i]) && a.contains(a[j]));
    let k = choose|k: int| 0 <= k < b.len() && b[k] == a[i];
    let l = choose|l: int| 0 <= l < b.len() && b[l] == a[j];
    assert(reported_by(workflows, b[k], outcome, test));
    assert(reported_by(workflows, b[l], outcome, test));
}

/// What is shown of shared tests does not depend on the order of the results, nor on how often
/// one occurs.
pub proof fn law_correlation_ignores_order(
    workflows: Seq<Workflow>,
    a: Seq<TriageModel>,
    b: Seq<TriageModel>,
)
    requires
        forall|r: TriageModel| a.contains(r) == b.contains(r),
    ensures
        correlation_lines(workflows, a) == correlation_lines(workflows, b),
{
    lemma_same_shared(workflows, a, b, TestOutcome::Failed);
    lemma_same_shared(workflows, a, b, TestOutcome::UnexpectedlyPassed);
}

proof fn lemma_same_shared(
    workflows: Seq<Workflow>,
    a: Seq<TriageModel>,
    b: Seq<TriageModel>,
    outcome: TestOutcome,
)
    requires
        forall|r: TriageModel| a.contains(r) == b.contains(r),
    ensures
        shared_tests(workflows, a, outcome) == shared_tests(workflows, b, outcome),
        forall|tests: Seq<Seq<char>>|
            #[trigger] tests_lines(workflows, a, outcome, tests) == tests_lines(
                workflows,
                b,
                outcome,
                tests,
            ),
{
    let x = shown_tests(workflows, a, outcome);
    let y = shown_tests(workflows, b, outcome);
    text::lemma_sorted_texts(x);
    text::lemma_sorted_texts(y);
    assert forall|t: Seq<char>| text::sorted_texts(x).contains(t) == text::sorted_texts(
        y,
    ).contains(t) by {
        lemma_shown_tests(workflows, a, outcome, t);
        lemma_shown_tests(workflows, b, outcome, t);
        lemma_same_members(workflows, a, b, outcome, t);
        lemma_same_members(workflows, b, a, outcome, t);
    }
    text::lemma_increasing_unique(text::sorted_texts(x), text::sorted_texts(y));
    let p = |t: Seq<char>| shared(workflows, a, outcome, t);
    let q = |t: Seq<char>| shared(workflows, b, outcome, t);
    assert forall|t: Seq<char>| #[trigger] p(t) == q(t) by {
        if p(t) {
            lemma_shared_stays(workflows, a, b, outcome, t);
        }
        if q(t) {
            lemma_shared_stays(workflows, b, a, outcome, t);
        }
    }
    assert(p =~= q);
    assert forall|tests: Seq<Seq<char>>|
        #[trigger] tests_lines(workflows, a, outcome, tests) == tests_lines(
            workflows,
            b,
            outcome,
            tests,
        ) by {
        lemma_same_lines(workflows, a, b, outcome, tests);
    }
}

proof fn lemma_same_lines(
    workflows: Seq<Workflow>,
    a: Seq<TriageModel>,
    b: Seq<TriageModel>,
    outcome: TestOutcome,
    tests: Seq<Seq<char>>,
)
    requires
        forall|r: TriageModel| a.contains(r) == b.contains(r),
    ensures
        tests_lines(workflows, a, outcome, tests) == tests_lines(workflows, b, outcome, tests),
    decreases tests.len(),
{
    if tests.len() > 0 {
        lemma_same_lines(workflows, a, b, outcome, tests.drop_last());
        lemma_same_members(workflows, a, b, outcome, tests.last());
    }
}

} // verus!
