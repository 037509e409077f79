//! Which numbers the views of a session depend on.
use vstd::prelude::*;
use vstd::string::*;

use crate::command::{self, Command, CommandModel};
use crate::github::{RunCounts, Workflow};
use crate::query::{
    self, ClauseModel, FilterExpression, Numerals, NumeralsModel, SortModel, Sorting,
};
use crate::state::{self, PaneModel, SavedTabModel, ViewTab};
use crate::text;
use crate::tui::{App, AppModel};
use crate::view::{ListModel, Tab, TabModel};

verus! {

broadcast use crate::text::lemma_views_push;

/// The texts that a value of a filter compares with.
pub open spec fn value_operands(expected: Seq<char>) -> Seq<Seq<char>> {
    match query::comparison_of(expected) {
        Some((operator, value)) => seq![value],
        None => match text::cut_first(expected, ".."@) {
            Some((start, end)) => seq![start, end],
            None => Seq::empty(),
        },
    }
}

/// The texts that some values of a filter compare with.
pub open spec fn values_operands(values: Seq<Seq<char>>) -> Seq<Seq<char>>
    decreases values.len(),
{
    if values.len() == 0 {
        Seq::empty()
    } else {
        values_operands(values.drop_last()) + value_operands(values.last())
    }
}

/// The texts that a filter compares with.
pub open spec fn filter_operands(clauses: Seq<ClauseModel>) -> Seq<Seq<char>>
    decreases clauses.len(),
{
    if clauses.len() == 0 {
        Seq::empty()
    } else {
        filter_operands(clauses.drop_last()) + values_operands(clauses.last().values)
    }
}

/// The pairs of passed and total runs of a workflow.
pub open spec fn rates_in(workflow: Workflow) -> Seq<RunCounts> {
    let metrics = workflow.run_metrics;
    seq![metrics.last_24_hours, metrics.last_7_days, metrics.last_14_days]
}

/// The numbers of runs of a period, as texts.
pub open spec fn count_texts(counts: RunCounts, numerals: NumeralsModel) -> Seq<Seq<char>> {
    seq![
        text::decimal(counts.passed as nat),
        text::decimal(counts.failed as nat),
        text::decimal(counts.total as nat),
        numerals.rate(counts),
    ]
}

/// The texts of a workflow that filters and sorts compare.
pub open spec fn workflow_texts(workflow: Workflow, numerals: NumeralsModel) -> Seq<Seq<char>> {
    let metrics = workflow.run_metrics;
    seq![workflow.name@, query::status_word(workflow), ""@] + count_texts(
        metrics.last_24_hours,
        numerals,
    ) + count_texts(metrics.last_7_days, numerals) + count_texts(metrics.last_14_days, numerals)
}

/// The texts of some workflows that filters and sorts compare.
pub open spec fn workflows_texts(workflows: Seq<Workflow>, numerals: NumeralsModel) -> Seq<
    Seq<char>,
>
    decreases workflows.len(),
{
    if workflows.len() == 0 {
        Seq::empty()
    } else {
        workflows_texts(workflows.drop_last(), numerals) + workflow_texts(
            workflows.last(),
            numerals,
        )
    }
}

/// The texts that the filter of a view compares with.
pub open spec fn view_operands(view: ListModel) -> Seq<Seq<char>> {
    match view.filter_expression {
        Some(clauses) => filter_operands(clauses),
        None => Seq::empty(),
    }
}

/// The texts that the filters of some views compare with.
pub open spec fn views_operands(views: Seq<ListModel>) -> Seq<Seq<char>>
    decreases views.len(),
{
    if views.len() == 0 {
        Seq::empty()
    } else {
        views_operands(views.drop_last()) + view_operands(views.last())
    }
}

/// The texts that the filters of some tabs compare with.
pub open spec fn tabs_operands(tabs: Seq<TabModel>) -> Seq<Seq<char>>
    decreases tabs.len(),
{
    if tabs.len() == 0 {
        Seq::empty()
    } else {
        tabs_operands(tabs.drop_last()) + views_operands(tabs.last().views)
    }
}

/// The texts that a filter compares with, where it can be read.
pub open spec fn expression_operands(expression: Option<Seq<char>>) -> Seq<Seq<char>> {
    match expression {
        Some(expression) => match query::filter_of(expression) {
            Ok(clauses) => filter_operands(clauses),
            Err(_) => Seq::empty(),
        },
        None => Seq::empty(),
    }
}

/// The texts that the filters of some saved views compare with.
pub open spec fn panes_operands(panes: Seq<PaneModel>) -> Seq<Seq<char>>
    decreases panes.len(),
{
    if panes.len() == 0 {
        Seq::empty()
    } else {
        panes_operands(panes.drop_last()) + expression_operands(panes.last().filter)
    }
}

/// The texts that the filters of some saved tabs compare with.
pub open spec fn saved_operands(tabs: Seq<SavedTabModel>) -> Seq<Seq<char>>
    decreases tabs.len(),
{
    if tabs.len() == 0 {
        Seq::empty()
    } else {
        saved_operands(tabs.drop_last()) + panes_operands(tabs.last().views)
    }
}

/// Lists the texts that a value of a filter compares with.
pub fn operands_of_value(expected: &str) -> (r: Vec<String>)
    ensures
        text::views(r@) == value_operands(expected@),
{
    let mut r: Vec<String> = Vec::new();
    if let Some((_, value)) = query::comparison(expected) {
        r.push(value);
    } else if let Some((start, end)) = text::split_once(expected, "..") {
        r.push(start);
        r.push(end);
    }
    assert(text::views(r@) =~= value_operands(expected@));
    r
}

/// Lists the texts that a filter compares with.
pub fn operands(filter: &FilterExpression) -> (r: Vec<String>)
    ensures
        text::views(r@) == filter_operands(filter@),
{
    let ghost all = filter@;
    let mut r: Vec<String> = Vec::new();
    let mut i: usize = 0;
    assert(text::views(r@) =~= filter_operands(all.take(0)));
    while i < filter.clauses.len()
        invariant
            i <= filter.clauses@.len(),
            all == filter@,
            text::views(r@) == filter_operands(all.take(i as int)),
        decreases filter.clauses@.len() - i,
    {
        let clause = &filter.clauses[i];
        let ghost values = text::views(clause.values@);
        let ghost before = text::views(r@);
        assert(all.take(i + 1).drop_last() =~= all.take(i as int));
        assert(all[i as int].values == values);
        let mut j: usize = 0;
        assert(text::views(r@) =~= before + values_operands(values.take(0)));
        while j < clause.values.len()
            invariant
                j <= clause.values@.len(),
                values == text::views(clause.values@),
                text::views(r@) == before + values_operands(values.take(j as int)),
            decreases clause.values@.len() - j,
        {
            assert(values.take(j + 1).drop_last() =~= values.take(j as int));
            assert(values[j as int] == clause.values@[j as int]@);
            text::push_texts(&mut r, &operands_of_value(clause.values[j].as_str()));
            assert(text::views(r@) =~= before + values_operands(values.take(j + 1)));
            j = j + 1;
        }
        assert(values.take(j as int) =~= values);
        i = i + 1;
    }
    assert(all.take(i as int) =~= all);
    r
}

fn push_counts(r: &mut Vec<String>, counts: RunCounts, numerals: &Numerals)
    ensures
        text::views(final(r)@) == text::views(old(r)@) + count_texts(counts, numerals@),
{
    let ghost before = text::views(r@);
    r.push(text::number_text(counts.passed as u64));
    r.push(text::number_text(counts.failed as u64));
    r.push(text::number_text(counts.total as u64));
    r.push(numerals.rate(counts));
    assert(text::views(r@) =~= before + count_texts(counts, numerals@));
}

/// Lists the texts of some workflows that filters and sorts compare.
pub fn texts_of_workflows(workflows: &Vec<Workflow>, numerals: &Numerals) -> (r: Vec<String>)
    ensures
        text::views(r@) == workflows_texts(workflows@, numerals@),
{
    let mut r: Vec<String> = Vec::new();
    let mut i: usize = 0;
    assert(text::views(r@) =~= workflows_texts(workflows@.take(0), numerals@));
    while i < workflows.len()
        invariant
            i <= workflows@.len(),
            text::views(r@) == workflows_texts(workflows@.take(i as int), numerals@),
        decreases workflows@.len() - i,
    {
        let workflow = &workflows[i];
        let ghost before = text::views(r@);
        assert(workflows@.take(i + 1).drop_last() =~= workflows@.take(i as int));
        r.push(workflow.name.clone());
        r.push(query::status_value(workflow).to_owned());
        r.push("".to_owned());
        push_counts(&mut r, workflow.run_metrics.last_24_hours, numerals);
        push_counts(&mut r, workflow.run_metrics.last_7_days, numerals);
        push_counts(&mut r, workflow.run_metrics.last_14_days, numerals);
        assert(text::views(r@) =~= before + workflow_texts(*workflow, numerals@));
        i = i + 1;
    }
    assert(workflows@.take(i as int) =~= workflows@);
    r
}

fn operands_of_expression(expression: &Option<String>) -> (r: Vec<String>)
    ensures
        text::views(r@) == expression_operands(text::view_opt(*expression)),
{
    if let Some(expression) = expression {
        if let Ok(filter) = FilterExpression::parse(expression.as_str()) {
            return operands(&filter);
        }
    }
    let r: Vec<String> = Vec::new();
    assert(text::views(r@) =~= Seq::<Seq<char>>::empty());
    r
}

fn operands_of_tabs(tabs: &Vec<Tab>) -> (r: Vec<String>)
    ensures
        text::views(r@) == tabs_operands(tabs@.map_values(|tab: Tab| tab@)),
{
    let ghost all = tabs@.map_values(|tab: Tab| tab@);
    let mut r: Vec<String> = Vec::new();
    let mut i: usize = 0;
    assert(text::views(r@) =~= tabs_operands(all.take(0)));
    while i < tabs.len()
        invariant
            i <= tabs@.len(),
            all == tabs@.map_values(|tab: Tab| tab@),
            text::views(r@) == tabs_operands(all.take(i as int)),
        decreases tabs@.len() - i,
    {
        let tab = &tabs[i];
        let ghost views = tab@.views;
        let ghost before = text::views(r@);
        assert(all.take(i + 1).drop_last() =~= all.take(i as int));
        assert(all[i as int].views == views);
        let mut j: usize = 0;
        assert(text::views(r@) =~= before + views_operands(views.take(0)));
        while j < tab.views.len()
            invariant
                j <= tab.views@.len(),
                views == tab@.views,
                text::views(r@) == before + views_operands(views.take(j as int)),
            decreases tab.views@.len() - j,
        {
            assert(views.take(j + 1).drop_last() =~= views.take(j as int));
            assert(views[j as int] == tab.views@[j as int]@);
            let ghost so_far = text::views(r@);
            if let Some(filter) = &tab.views[j].filter_expression {
                text::push_texts(&mut r, &operands(filter));
            }
            assert(text::views(r@) =~= so_far + view_operands(views[j as int]));
            assert(text::views(r@) =~= before + views_operands(views.take(j + 1)));
            j = j + 1;
        }
        assert(views.take(j as int) =~= views);
        i = i + 1;
    }
    assert(all.take(i as int) =~= all);
    r
}

fn operands_of_saved(tabs: &Vec<ViewTab>) -> (r: Vec<String>)
    ensures
        text::views(r@) == saved_operands(state::saved_tab_views(tabs@)),
{
    let ghost all = state::saved_tab_views(tabs@);
    let mut r: Vec<String> = Vec::new();
    let mut i: usize = 0;
    assert(text::views(r@) =~= saved_operands(all.take(0)));
    while i < tabs.len()
        invariant
            i <= tabs@.len(),
            all == state::saved_tab_views(tabs@),
            text::views(r@) == saved_operands(all.take(i as int)),
        decreases tabs@.len() - i,
    {
        let tab = &tabs[i];
        let ghost panes = tab@.views;
        let ghost before = text::views(r@);
        assert(all.take(i + 1).drop_last() =~= all.take(i as int));
        assert(all[i as int].views == panes);
        text::push_texts(&mut r, &operands_of_expression(&tab.filter));
        proof {
            assert(panes.take(1).drop_last() =~= panes.take(0));
            assert(panes_operands(panes.take(0)) =~= Seq::<Seq<char>>::empty());
            assert(panes.take(1).last() == tab.primary());
            assert(text::views(r@) =~= before + panes_operands(panes.take(1)));
        }
        let mut j: usize = 0;
        while j < tab.additional_views.len()
            invariant
                j <= tab.additional_views@.len(),
                panes == tab@.views,
                text::views(r@) == before + panes_operands(panes.take(j + 1)),
            decreases tab.additional_views@.len() - j,
        {
            assert(panes.take(j + 2).drop_last() =~= panes.take(j + 1));
            assert(panes[j + 1] == tab.additional_views@[j as int]@);
            text::push_texts(&mut r, &operands_of_expression(&tab.additional_views[j].filter));
            assert(text::views(r@) =~= before + panes_operands(panes.take(j + 2)));
            j = j + 1;
        }
        assert(panes.take(j + 1) =~= panes);
        i = i + 1;
    }
    assert(all.take(i as int) =~= all);
    r
}

/// The texts that the filter of a command compares with, where it sets one.
pub open spec fn command_operands(command: Seq<char>) -> Seq<Seq<char>> {
    match command::command_of(text::trimmed(command)) {
        CommandModel::Filter { expression } => expression_operands(expression),
        _ => Seq::empty(),
    }
}

fn operands_of_command(command: &str) -> (r: Vec<String>)
    ensures
        text::views(r@) == command_operands(command@),
{
    match command::parse_command(text::trim(command).as_str()) {
        Command::Filter { expression } => operands_of_expression(&expression),
        _ => {
            let r: Vec<String> = Vec::new();
            assert(text::views(r@) =~= Seq::<Seq<char>>::empty());
            r
        },
    }
}

impl AppModel {
    /// The texts that the filters and sorts of the session compare, of its tabs as they are, of
    /// those that wait for a load, and of the command in work.
    pub open spec fn compared_texts(self, numerals: NumeralsModel) -> Seq<Seq<char>> {
        workflows_texts(self.workflows, numerals) + tabs_operands(self.tabs) + self.pending_operands()
            + command_operands(self.command)
    }

    /// The texts that the filters of the tabs that wait for a load compare with.
    pub open spec fn pending_operands(self) -> Seq<Seq<char>> {
        match self.pending_load {
            Some(pending) => match pending.tabs {
                Some(tabs) => saved_operands(tabs),
                None => Seq::empty(),
            },
            None => Seq::empty(),
        }
    }
}

impl App {
    /// Lists the texts that the filters and sorts of the session compare, where pass rates are
    /// written as `numerals` say.
    pub fn texts_to_read(&self, numerals: &Numerals) -> (r: Vec<String>)
        ensures
            text::views(r@) == self@.compared_texts(numerals@),
    {
        let mut r = texts_of_workflows(&self.workflows, numerals);
        text::push_texts(&mut r, &operands_of_tabs(&self.tabs));
        let ghost before = text::views(r@);
        if let Some(pending) = &self.pending_load {
            if let Some(tabs) = &pending.tabs {
                text::push_texts(&mut r, &operands_of_saved(tabs));
            }
        }
        assert(text::views(r@) =~= before + self@.pending_operands());
        text::push_texts(&mut r, &operands_of_command(self.command.as_str()));
        assert(text::views(r@) =~= self@.compared_texts(numerals@));
        r
    }

    /// Takes over how texts read as numbers, and how pass rates are written.
    pub fn set_numerals(&mut self, numerals: Numerals)
        ensures
            final(self)@ == (AppModel { numerals: numerals@, ..old(self)@ }),
    {
        self.numerals = numerals;
    }
}

/// Whether two ways to read texts agree on some texts.
pub open spec fn agree_on(a: NumeralsModel, b: NumeralsModel, texts: Seq<Seq<char>>) -> bool {
    forall|t: Seq<char>| #[trigger] texts.contains(t) ==> a.reading(t) == b.reading(t)
}

/// Whether two ways to write pass rates agree on those of some workflows.
pub open spec fn rates_agree(
    a: NumeralsModel,
    b: NumeralsModel,
    workflows: Seq<Workflow>,
) -> bool {
    forall|w: Workflow, i: int|
        #![trigger workflows.contains(w), rates_in(w)[i]]
        workflows.contains(w) && 0 <= i < 3 ==> a.rate(rates_in(w)[i]) == b.rate(rates_in(w)[i])
}

proof fn lemma_counts_listed(counts: RunCounts, numerals: NumeralsModel)
    ensures
        count_texts(counts, numerals).contains(text::decimal(counts.passed as nat)),
        count_texts(counts, numerals).contains(text::decimal(counts.failed as nat)),
        count_texts(counts, numerals).contains(text::decimal(counts.total as nat)),
        count_texts(counts, numerals).contains(numerals.rate(counts)),
{
    let texts = count_texts(counts, numerals);
    assert(texts[0] == text::decimal(counts.passed as nat));
    assert(texts[1] == text::decimal(counts.failed as nat));
    assert(texts[2] == text::decimal(counts.total as nat));
    assert(texts[3] == numerals.rate(counts));
}

/// The value of a field is one of the texts of the workflow.
proof fn lemma_value_listed(workflow: Workflow, field: Seq<char>, numerals: NumeralsModel)
    requires
        query::field_value(workflow, field, numerals) is Some,
    ensures
        workflow_texts(workflow, numerals).contains(
            query::field_value(workflow, field, numerals)->0,
        ),
{
    reveal_strlit("");
    let metrics = workflow.run_metrics;
    let head = seq![workflow.name@, query::status_word(workflow), ""@];
    let day = count_texts(metrics.last_24_hours, numerals);
    let week = count_texts(metrics.last_7_days, numerals);
    let weeks = count_texts(metrics.last_14_days, numerals);
    lemma_counts_listed(metrics.last_24_hours, numerals);
    lemma_counts_listed(metrics.last_7_days, numerals);
    lemma_counts_listed(metrics.last_14_days, numerals);
    assert(head[0] == workflow.name@);
    assert(head[1] == query::status_word(workflow));
    assert(head[2] == ""@);
    assert(""@ =~= Seq::<char>::empty());
    let t = query::field_value(workflow, field, numerals)->0;
    assert(head.contains(t) || day.contains(t) || week.contains(t) || weeks.contains(t));
    text::lemma_contains_sum(head, day, t);
    text::lemma_contains_sum(head + day, week, t);
    text::lemma_contains_sum(head + day + week, weeks, t);
}

/// The texts of a workflow are among those of a list that holds it.
proof fn lemma_workflow_listed(
    workflows: Seq<Workflow>,
    workflow: Workflow,
    numerals: NumeralsModel,
    t: Seq<char>,
)
    requires
        workflows.contains(workflow),
        workflow_texts(workflow, numerals).contains(t),
    ensures
        workflows_texts(workflows, numerals).contains(t),
    decreases workflows.len(),
{
    let rest = workflows.drop_last();
    if workflows.last() != workflow {
        let i = workflows.index_of(workflow);
        assert(rest[i] == workflow);
        lemma_workflow_listed(rest, workflow, numerals, t);
    }
    text::lemma_contains_sum(
        workflows_texts(rest, numerals),
        workflow_texts(workflows.last(), numerals),
        t,
    );
}

/// What a value of a list compares with is listed.
proof fn lemma_value_operands_listed(values: Seq<Seq<char>>, i: int, t: Seq<char>)
    requires
        0 <= i < values.len(),
        value_operands(values[i]).contains(t),
    ensures
        values_operands(values).contains(t),
    decreases values.len(),
{
    if i < values.len() - 1 {
        lemma_value_operands_listed(values.drop_last(), i, t);
    }
    text::lemma_contains_sum(
        values_operands(values.drop_last()),
        value_operands(values.last()),
        t,
    );
}

/// What a clause of a filter compares with is listed.
proof fn lemma_clause_operands_listed(clauses: Seq<ClauseModel>, i: int, t: Seq<char>)
    requires
        0 <= i < clauses.len(),
        values_operands(clauses[i].values).contains(t),
    ensures
        filter_operands(clauses).contains(t),
    decreases clauses.len(),
{
    if i < clauses.len() - 1 {
        lemma_clause_operands_listed(clauses.drop_last(), i, t);
    }
    text::lemma_contains_sum(
        filter_operands(clauses.drop_last()),
        values_operands(clauses.last().values),
        t,
    );
}

proof fn lemma_same_match(
    a: NumeralsModel,
    b: NumeralsModel,
    actual: Seq<char>,
    expected: Seq<char>,
)
    requires
        a.reading(actual) == b.reading(actual),
        agree_on(a, b, value_operands(expected)),
    ensures
        query::value_matched(actual, expected, a) == query::value_matched(actual, expected, b),
{
    let operands = value_operands(expected);
    match query::comparison_of(expected) {
        Some((operator, value)) => {
            assert(operands[0] == value);
            assert(operands.contains(value));
        },
        None => match text::cut_first(expected, ".."@) {
            Some((start, end)) => {
                assert(operands[0] == start);
                assert(operands[1] == end);
                assert(operands.contains(start) && operands.contains(end));
            },
            None => {},
        },
    }
}

/// Whether two ways to read texts agree on all that matters for a workflow.
pub open spec fn agree_for(a: NumeralsModel, b: NumeralsModel, workflow: Workflow) -> bool {
    &&& forall|i: int|
        0 <= i < 3 ==> a.rate(#[trigger] rates_in(workflow)[i]) == b.rate(rates_in(workflow)[i])
    &&& agree_on(a, b, workflow_texts(workflow, a))
}

proof fn lemma_same_value(a: NumeralsModel, b: NumeralsModel, workflow: Workflow, field: Seq<char>)
    requires
        agree_for(a, b, workflow),
    ensures
        query::field_value(workflow, field, a) == query::field_value(workflow, field, b),
        query::field_value(workflow, field, a) matches Some(t) ==> a.reading(t) == b.reading(t),
{
    let metrics = workflow.run_metrics;
    assert(rates_in(workflow)[0] == metrics.last_24_hours);
    assert(rates_in(workflow)[1] == metrics.last_7_days);
    assert(rates_in(workflow)[2] == metrics.last_14_days);
    if query::field_value(workflow, field, a) is Some {
        lemma_value_listed(workflow, field, a);
    }
}

proof fn lemma_same_hold(
    a: NumeralsModel,
    b: NumeralsModel,
    workflow: Workflow,
    field: Option<Seq<char>>,
    value: Seq<char>,
)
    requires
        agree_for(a, b, workflow),
        agree_on(a, b, value_operands(value)),
    ensures
        query::value_holds(workflow, field, value, a) == query::value_holds(
            workflow,
            field,
            value,
            b,
        ),
{
    let head = workflow_texts(workflow, a);
    assert(head[0] == workflow.name@);
    assert(head[1] == query::status_word(workflow));
    assert(head.contains(workflow.name@) && head.contains(query::status_word(workflow)));
    match query::question_of(field) {
        query::Question::Text => {
            lemma_same_match(a, b, workflow.name@, value);
        },
        query::Question::Has => {
            lemma_same_value(a, b, workflow, query::normal_of(value));
        },
        query::Question::No => {
            lemma_same_value(a, b, workflow, query::normal_of(value));
        },
        query::Question::Is => {
            lemma_same_match(a, b, query::status_word(workflow), value);
        },
        query::Question::Field => {
            lemma_same_value(a, b, workflow, field->0);
            if let Some(actual) = query::field_value(workflow, field->0, a) {
                lemma_same_match(a, b, actual, value);
            }
        },
    }
}

proof fn lemma_same_filter(
    a: NumeralsModel,
    b: NumeralsModel,
    workflow: Workflow,
    clauses: Seq<ClauseModel>,
)
    requires
        agree_for(a, b, workflow),
        agree_on(a, b, filter_operands(clauses)),
    ensures
        query::filter_holds(clauses, workflow, a) == query::filter_holds(clauses, workflow, b),
{
    assert forall|i: int| 0 <= i < clauses.len() implies (#[trigger] clauses[i]).holds_of(
        workflow,
        a,
    ) == clauses[i].holds_of(workflow, b) by {
        let values = clauses[i].values;
        let field = clauses[i].normal_field();
        assert forall|j: int| 0 <= j < values.len() implies query::value_holds(
            workflow,
            field,
            #[trigger] values[j],
            a,
        ) == query::value_holds(workflow, field, values[j], b) by {
            assert forall|t: Seq<char>| #[trigger] value_operands(values[j]).contains(
                t,
            ) implies a.reading(t) == b.reading(t) by {
                lemma_value_operands_listed(values, j, t);
                lemma_clause_operands_listed(clauses, i, t);
            }
            lemma_same_hold(a, b, workflow, field, values[j]);
        }
        if query::some_value_holds(workflow, field, values, a) {
            let j = choose|j: int|
                0 <= j < values.len() && query::value_holds(
                    workflow,
                    field,
                    #[trigger] values[j],
                    a,
                );
            assert(query::value_holds(workflow, field, values[j], b));
        }
        if query::some_value_holds(workflow, field, values, b) {
            let j = choose|j: int|
                0 <= j < values.len() && query::value_holds(
                    workflow,
                    field,
                    #[trigger] values[j],
                    b,
                );
            assert(query::value_holds(workflow, field, values[j], a));
        }
    }
}

proof fn lemma_same_order(a: Sorting, b: Sorting, x: Workflow, y: Workflow)
    requires
        a.field == b.field,
        a.descending == b.descending,
        agree_for(a.numerals, b.numerals, x),
        agree_for(a.numerals, b.numerals, y),
    ensures
        a.order(x, y) == b.order(x, y),
{
    reveal(Sorting::order);
    lemma_same_value(a.numerals, b.numerals, x, a.field);
    lemma_same_value(a.numerals, b.numerals, y, a.field);
}

proof fn lemma_same_insertion(a: Sorting, b: Sorting, list: Seq<Workflow>, x: Workflow)
    requires
        a.field == b.field,
        a.descending == b.descending,
        agree_for(a.numerals, b.numerals, x),
        forall|i: int|
            0 <= i < list.len() ==> agree_for(a.numerals, b.numerals, #[trigger] list[i]),
    ensures
        a.with_item(list, x) == b.with_item(list, x),
        a.with_item(list, x).len() == list.len() + 1,
        forall|i: int|
            0 <= i <= list.len() ==> agree_for(
                a.numerals,
                b.numerals,
                #[trigger] a.with_item(list, x)[i],
            ),
    decreases list.len(),
{
    if list.len() > 0 {
        lemma_same_order(a, b, x, list.last());
        if a.order(x, list.last()) == query::Order::Less {
            lemma_same_insertion(a, b, list.drop_last(), x);
        }
    }
}

proof fn lemma_same_sort(a: Sorting, b: Sorting, list: Seq<Workflow>)
    requires
        a.field == b.field,
        a.descending == b.descending,
        forall|i: int|
            0 <= i < list.len() ==> agree_for(a.numerals, b.numerals, #[trigger] list[i]),
    ensures
        a.sorted(list) == b.sorted(list),
        forall|i: int|
            0 <= i < a.sorted(list).len() ==> agree_for(
                a.numerals,
                b.numerals,
                #[trigger] a.sorted(list)[i],
            ),
    decreases list.len(),
{
    if list.len() > 0 {
        lemma_same_sort(a, b, list.drop_last());
        lemma_same_insertion(a, b, a.sorted(list.drop_last()), list.last());
    }
}

/// Of two ways to read texts that agree on the texts of the workflows and of the filter, and to
/// write the pass rates of the workflows, both select the same workflows in the same order.
pub proof fn law_selection_needs_listed_texts(
    workflows: Seq<Workflow>,
    filter: Option<Seq<ClauseModel>>,
    sort: Option<SortModel>,
    a: NumeralsModel,
    b: NumeralsModel,
)
    requires
        rates_agree(a, b, workflows),
        agree_on(a, b, workflows_texts(workflows, a)),
        filter is Some ==> agree_on(a, b, filter_operands(filter->0)),
    ensures
        query::selection(workflows, filter, sort, a) == query::selection(
            workflows,
            filter,
            sort,
            b,
        ),
{
    let keeps_a = |workflow: Workflow| query::passes(filter, workflow, a);
    let keeps_b = |workflow: Workflow| query::passes(filter, workflow, b);
    assert forall|workflow: Workflow| #[trigger] workflows.contains(workflow) implies agree_for(
        a,
        b,
        workflow,
    ) by {
        assert forall|t: Seq<char>| #[trigger] workflow_texts(workflow, a).contains(
            t,
        ) implies a.reading(t) == b.reading(t) by {
            lemma_workflow_listed(workflows, workflow, a, t);
        }
    }
    assert forall|i: int| 0 <= i < workflows.len() implies keeps_a(#[trigger] workflows[i])
        == keeps_b(workflows[i]) by {
        assert(workflows.contains(workflows[i]));
        if let Some(clauses) = filter {
            lemma_same_filter(a, b, workflows[i], clauses);
        }
    }
    lemma_same_filtered(workflows, keeps_a, keeps_b);
    let kept = workflows.filter(keeps_a);
    if let Some(sort) = sort {
        let field = query::normal_of(sort.field);
        let one = Sorting { field, descending: sort.descending, numerals: a };
        let other = Sorting { field, descending: sort.descending, numerals: b };
        assert forall|i: int| 0 <= i < kept.len() implies agree_for(a, b, #[trigger] kept[i]) by {
            workflows.lemma_filter_contains_rev(keeps_a, kept[i]);
        }
        lemma_same_sort(one, other, kept);
    }
}

proof fn lemma_same_filtered(
    list: Seq<Workflow>,
    a: spec_fn(Workflow) -> bool,
    b: spec_fn(Workflow) -> bool,
)
    requires
        forall|i: int| 0 <= i < list.len() ==> a(#[trigger] list[i]) == b(list[i]),
    ensures
        list.filter(a) == list.filter(b),
    decreases list.len(),
{
    reveal(Seq::filter);
    if list.len() > 0 {
        assert(a(list[list.len() - 1]) == b(list[list.len() - 1]));
        lemma_same_filtered(list.drop_last(), a, b);
    }
}

proof fn lemma_view_operands_listed(views: Seq<ListModel>, i: int, t: Seq<char>)
    requires
        0 <= i < views.len(),
        view_operands(views[i]).contains(t),
    ensures
        views_operands(views).contains(t),
    decreases views.len(),
{
    if i < views.len() - 1 {
        lemma_view_operands_listed(views.drop_last(), i, t);
    }
    text::lemma_contains_sum(views_operands(views.drop_last()), view_operands(views.last()), t);
}

proof fn lemma_tab_operands_listed(tabs: Seq<TabModel>, i: int, t: Seq<char>)
    requires
        0 <= i < tabs.len(),
        views_operands(tabs[i].views).contains(t),
    ensures
        tabs_operands(tabs).contains(t),
    decreases tabs.len(),
{
    if i < tabs.len() - 1 {
        lemma_tab_operands_listed(tabs.drop_last(), i, t);
    }
    text::lemma_contains_sum(
        tabs_operands(tabs.drop_last()),
        views_operands(tabs.last().views),
        t,
    );
}

/// What the views of a session show rests on the texts that the session lists and on the pass
/// rates of its workflows alone.
pub proof fn law_views_need_listed_texts(app: AppModel, other: NumeralsModel, tab: int, view: int)
    requires
        0 <= tab < app.tabs.len(),
        0 <= view < app.tabs[tab].views.len(),
        rates_agree(app.numerals, other, app.workflows),
        agree_on(app.numerals, other, app.compared_texts(app.numerals)),
    ensures
        (AppModel { numerals: other, ..app }).shown_by(app.tabs[tab].views[view])
            == app.shown_by(app.tabs[tab].views[view]),
{
    let list = app.tabs[tab].views[view];
    let texts = workflows_texts(app.workflows, app.numerals);
    let operands = tabs_operands(app.tabs);
    let pending = app.pending_operands();
    let command = command_operands(app.command);
    assert forall|t: Seq<char>| texts.contains(t) || operands.contains(t) implies #[trigger]
    app.compared_texts(app.numerals).contains(t) by {
        text::lemma_contains_sum(texts, operands, t);
        text::lemma_contains_sum(texts + operands, pending, t);
        text::lemma_contains_sum(texts + operands + pending, command, t);
    }
    assert forall|t: Seq<char>| #[trigger] texts.contains(t) implies app.numerals.reading(t)
        == other.reading(t) by {
        assert(app.compared_texts(app.numerals).contains(t));
    }
    if let Some(clauses) = list.filter_expression {
        assert forall|t: Seq<char>| #[trigger] filter_operands(clauses).contains(
            t,
        ) implies app.numerals.reading(t) == other.reading(t) by {
            lemma_view_operands_listed(app.tabs[tab].views, view, t);
            lemma_tab_operands_listed(app.tabs, tab, t);
            assert(app.compared_texts(app.numerals).contains(t));
        }
    }
    law_selection_needs_listed_texts(
        app.workflows,
        list.filter_expression,
        list.sort_spec,
        app.numerals,
        other,
    );
}

} // verus!
