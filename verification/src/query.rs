//! Filter expressions and sort specifications over workflows.
use vstd::prelude::*;
use vstd::string::*;

use crate::github::{RunCounts, RunStatus, Workflow};
use crate::text::{self, CharClass};

verus! {

broadcast use crate::text::lemma_views_push;

/// How two values compare.
#[derive(Clone, Copy, Debug, PartialEq, Eq, Structural)]
pub enum Order {
    Less,
    Equal,
    Greater,
}

/// How a text reads as a number.
#[derive(Clone, Copy, Debug, PartialEq, Eq, Structural)]
pub enum Number {
    /// It reads as a value that compares with none.
    NotANumber,
    /// It reads as a number; a lesser number has a lesser place, and equal numbers have one
    /// place.
    At(i64),
}

/// How texts read as numbers, and how pass rates are written.
pub struct Numerals {
    pub readings: Vec<(String, Number)>,
    pub rates: Vec<(u32, u32, String)>,
}

/// What [`Numerals`] say.
#[verifier::ext_equal]
pub struct NumeralsModel {
    pub readings: Map<Seq<char>, Number>,
    pub rates: Map<(u32, u32), Seq<char>>,
}

/// What a list of readings says of each text: its last reading counts.
pub open spec fn readings_of(list: Seq<(String, Number)>) -> Map<Seq<char>, Number>
    decreases list.len(),
{
    if list.len() == 0 {
        Map::empty()
    } else {
        readings_of(list.drop_last()).insert(list.last().0@, list.last().1)
    }
}

/// What a list of rates says of each pair of passed and total runs: its last entry counts.
pub open spec fn rates_of(list: Seq<(u32, u32, String)>) -> Map<(u32, u32), Seq<char>>
    decreases list.len(),
{
    if list.len() == 0 {
        Map::empty()
    } else {
        rates_of(list.drop_last()).insert((list.last().0, list.last().1), list.last().2@)
    }
}

impl View for Numerals {
    type V = NumeralsModel;

    open spec fn view(&self) -> NumeralsModel {
        NumeralsModel { readings: readings_of(self.readings@), rates: rates_of(self.rates@) }
    }
}

impl NumeralsModel {
    /// How a text reads as a number, where it does.
    pub open spec fn reading(self, t: Seq<char>) -> Option<Number> {
        if self.readings.contains_key(t) {
            Some(self.readings[t])
        } else {
            None
        }
    }

    /// How a pass rate is written; the empty text where that is not known.
    pub open spec fn rate(self, counts: RunCounts) -> Seq<char> {
        if self.rates.contains_key((counts.passed, counts.total)) {
            self.rates[(counts.passed, counts.total)]
        } else {
            Seq::empty()
        }
    }
}

impl Numerals {
    /// Numerals that say nothing.
    pub fn new() -> (r: Self)
        ensures
            r@.readings == Map::<Seq<char>, Number>::empty(),
            r@.rates == Map::<(u32, u32), Seq<char>>::empty(),
    {
        Numerals { readings: Vec::new(), rates: Vec::new() }
    }

    /// How a text reads as a number, where it does.
    pub fn reading(&self, t: &str) -> (r: Option<Number>)
        ensures
            r == self@.reading(t@),
    {
        let ghost all = self.readings@;
        let mut i: usize = self.readings.len();
        assert(all.take(i as int) =~= all);
        while i > 0
            invariant
                i <= all.len(),
                all == self.readings@,
                readings_of(all).contains_key(t@) == readings_of(all.take(i as int)).contains_key(
                    t@,
                ),
                readings_of(all).contains_key(t@) ==> readings_of(all)[t@] == readings_of(
                    all.take(i as int),
                )[t@],
            decreases i,
        {
            assert(all.take(i as int).drop_last() =~= all.take(i - 1));
            if text::same(self.readings[i - 1].0.as_str(), t) {
                return Some(self.readings[i - 1].1);
            }
            i = i - 1;
        }
        None
    }

    /// How a pass rate is written; the empty text where that is not known.
    pub fn rate(&self, counts: RunCounts) -> (r: String)
        ensures
            r@ == self@.rate(counts),
    {
        let ghost all = self.rates@;
        let ghost key = (counts.passed, counts.total);
        let mut i: usize = self.rates.len();
        assert(all.take(i as int) =~= all);
        while i > 0
            invariant
                i <= all.len(),
                all == self.rates@,
                key == (counts.passed, counts.total),
                rates_of(all).contains_key(key) == rates_of(all.take(i as int)).contains_key(key),
                rates_of(all).contains_key(key) ==> rates_of(all)[key] == rates_of(
                    all.take(i as int),
                )[key],
            decreases i,
        {
            assert(all.take(i as int).drop_last() =~= all.take(i - 1));
            let entry = &self.rates[i - 1];
            if entry.0 == counts.passed && entry.1 == counts.total {
                return entry.2.clone();
            }
            i = i - 1;
        }
        let r = String::new();
        assert(r@ =~= Seq::<char>::empty());
        r
    }
}

/// How two numbers compare; not at all where one is not a number.
pub open spec fn number_order(a: Number, b: Number) -> Option<Order> {
    match (a, b) {
        (Number::At(i), Number::At(j)) => Some(
            if i < j {
                Order::Less
            } else if i == j {
                Order::Equal
            } else {
                Order::Greater
            },
        ),
        _ => None,
    }
}

/// How two texts compare.
pub open spec fn text_order(a: Seq<char>, b: Seq<char>) -> Order {
    if text::text_less(a, b) {
        Order::Less
    } else if a == b {
        Order::Equal
    } else {
        Order::Greater
    }
}

/// A value as it is compared: the number that it reads as, where it does, and its text in
/// lower case.
pub struct Scalar {
    pub number: Option<Number>,
    pub lowered: String,
}

/// What a [`Scalar`] stands for.
#[verifier::ext_equal]
pub struct ScalarModel {
    pub number: Option<Number>,
    pub lowered: Seq<char>,
}

impl View for Scalar {
    type V = ScalarModel;

    open spec fn view(&self) -> ScalarModel {
        ScalarModel { number: self.number, lowered: self.lowered@ }
    }
}

/// How two values compare: as numbers where both read as numbers, and as texts in lower case
/// otherwise.
pub open spec fn scalar_order(a: ScalarModel, b: ScalarModel) -> Option<Order> {
    match (a.number, b.number) {
        (Some(i), Some(j)) => number_order(i, j),
        _ => Some(text_order(a.lowered, b.lowered)),
    }
}

/// A text as it is compared.
pub open spec fn scalar_of(t: Seq<char>, numerals: NumeralsModel) -> ScalarModel {
    ScalarModel { number: numerals.reading(t), lowered: text::lowercase(t) }
}

fn scalar(t: &str, numerals: &Numerals) -> (r: Scalar)
    ensures
        r@ == scalar_of(t@, numerals@),
{
    Scalar { number: numerals.reading(t), lowered: text::to_lowercase(t) }
}

fn order_texts(a: &str, b: &str) -> (r: Order)
    ensures
        r == text_order(a@, b@),
{
    if text::precedes(a, b) {
        Order::Less
    } else if text::same(a, b) {
        Order::Equal
    } else {
        Order::Greater
    }
}

/// Compares two values.
pub fn compare_scalar(a: &Scalar, b: &Scalar) -> (r: Option<Order>)
    ensures
        r == scalar_order(a@, b@),
{
    match (a.number, b.number) {
        (Some(Number::At(i)), Some(Number::At(j))) => Some(
            if i < j {
                Order::Less
            } else if i == j {
                Order::Equal
            } else {
                Order::Greater
            },
        ),
        (Some(_), Some(_)) => None,
        _ => Some(order_texts(a.lowered.as_str(), b.lowered.as_str())),
    }
}

/// A comparison operator of a filter.
#[derive(Clone, Copy, Debug, PartialEq, Eq, Structural)]
pub enum Operator {
    AtLeast,
    AtMost,
    Above,
    Below,
}

impl Operator {
    /// Whether values that compare in a way meet the operator.
    pub open spec fn met(self, order: Option<Order>) -> bool {
        match (self, order) {
            (_, None) => false,
            (Operator::AtLeast, Some(order)) => order != Order::Less,
            (Operator::AtMost, Some(order)) => order != Order::Greater,
            (Operator::Above, Some(order)) => order == Order::Greater,
            (Operator::Below, Some(order)) => order == Order::Less,
        }
    }

    /// Tells whether values that compare in a way meet the operator.
    pub fn is_met(self, order: Option<Order>) -> (r: bool)
        ensures
            r == self.met(order),
    {
        match order {
            None => false,
            Some(order) => match self {
                Operator::AtLeast => order != Order::Less,
                Operator::AtMost => order != Order::Greater,
                Operator::Above => order == Order::Greater,
                Operator::Below => order == Order::Less,
            },
        }
    }
}

/// The operator that a value of a filter begins with, and what follows it.
pub open spec fn comparison_of(expected: Seq<char>) -> Option<(Operator, Seq<char>)> {
    if text::begins_with(expected, ">="@) {
        Some((Operator::AtLeast, expected.skip(2)))
    } else if text::begins_with(expected, "<="@) {
        Some((Operator::AtMost, expected.skip(2)))
    } else if text::begins_with(expected, ">"@) {
        Some((Operator::Above, expected.skip(1)))
    } else if text::begins_with(expected, "<"@) {
        Some((Operator::Below, expected.skip(1)))
    } else {
        None
    }
}

/// Reads the operator that a value of a filter begins with.
pub fn comparison(expected: &str) -> (r: Option<(Operator, String)>)
    ensures
        match r {
            Some((operator, value)) => comparison_of(expected@) == Some((operator, value@)),
            None => comparison_of(expected@) is None,
        },
{
    proof {
        reveal_strlit(">=");
        reveal_strlit("<=");
        reveal_strlit(">");
        reveal_strlit("<");
    }
    if let Some(value) = text::strip_prefix(expected, ">=") {
        return Some((Operator::AtLeast, value));
    }
    if let Some(value) = text::strip_prefix(expected, "<=") {
        return Some((Operator::AtMost, value));
    }
    if let Some(value) = text::strip_prefix(expected, ">") {
        return Some((Operator::Above, value));
    }
    if let Some(value) = text::strip_prefix(expected, "<") {
        return Some((Operator::Below, value));
    }
    None
}

/// Whether a text matches a pattern that may begin and end with stars, both in lower case.
pub open spec fn wildcard_matched(actual: Seq<char>, expected: Seq<char>) -> bool {
    let star = CharClass::Is('*');
    match (text::begins_with(expected, "*"@), text::finishes_with(expected, "*"@)) {
        (true, true) => text::holds_text(actual, text::trim_of(expected, star)),
        (true, false) => text::finishes_with(actual, text::trim_start_of(expected, star)),
        (false, true) => text::begins_with(actual, text::trim_end_of(expected, star)),
        (false, false) => actual == expected,
    }
}

/// Matches a text with a pattern that may begin and end with stars, both in lower case.
pub fn wildcard_match(actual: &str, expected: &str) -> (r: bool)
    ensures
        r == wildcard_matched(actual@, expected@),
{
    let star = CharClass::Is('*');
    let leads = text::starts_with(expected, "*");
    let trails = text::ends_with(expected, "*");
    if leads && trails {
        text::contains(actual, text::trim_matches(expected, star).as_str())
    } else if leads {
        text::ends_with(actual, text::trim_start_matches(expected, star).as_str())
    } else if trails {
        text::starts_with(actual, text::trim_end_matches(expected, star).as_str())
    } else {
        text::same(actual, expected)
    }
}

/// Whether a value matches what a filter expects of it: a comparison, a range or a pattern.
pub open spec fn value_matched(
    actual: Seq<char>,
    expected: Seq<char>,
    numerals: NumeralsModel,
) -> bool {
    match comparison_of(expected) {
        Some((operator, value)) => operator.met(
            scalar_order(scalar_of(actual, numerals), scalar_of(value, numerals)),
        ),
        None => match text::cut_first(expected, ".."@) {
            Some((start, end)) => {
                &&& start == "*"@ || Operator::AtLeast.met(
                    scalar_order(scalar_of(actual, numerals), scalar_of(start, numerals)),
                )
                &&& end == "*"@ || Operator::AtMost.met(
                    scalar_order(scalar_of(actual, numerals), scalar_of(end, numerals)),
                )
            },
            None => wildcard_matched(text::lowercase(actual), text::lowercase(expected)),
        },
    }
}

/// Matches a value with what a filter expects of it.
pub fn matches_value(actual: &str, expected: &str, numerals: &Numerals) -> (r: bool)
    ensures
        r == value_matched(actual@, expected@, numerals@),
{
    if let Some((operator, value)) = comparison(expected) {
        return operator.is_met(
            compare_scalar(&scalar(actual, numerals), &scalar(value.as_str(), numerals)),
        );
    }
    if let Some((start, end)) = text::split_once(expected, "..") {
        let actual = scalar(actual, numerals);
        let after_start = text::same(start.as_str(), "*") || Operator::AtLeast.is_met(
            compare_scalar(&actual, &scalar(start.as_str(), numerals)),
        );
        let before_end = text::same(end.as_str(), "*") || Operator::AtMost.is_met(
            compare_scalar(&actual, &scalar(end.as_str(), numerals)),
        );
        return after_start && before_end;
    }
    let actual = text::to_lowercase(actual);
    let expected = text::to_lowercase(expected);
    wildcard_match(actual.as_str(), expected.as_str())
}

/// The name of a field without all that is neither a letter nor a digit, in lower case.
pub open spec fn normal_of(value: Seq<char>) -> Seq<char>
    decreases value.len(),
{
    if value.len() == 0 {
        Seq::empty()
    } else {
        normal_of(value.drop_last()) + if text::alphanumeric(value.last()) {
            text::char_lowercase(value.last())
        } else {
            Seq::empty()
        }
    }
}

/// Brings the name of a field into the form that it is looked up by.
pub fn normalized(value: &str) -> (r: String)
    ensures
        r@ == normal_of(value@),
{
    let chars = text::chars_of(value);
    let mut r = String::new();
    let mut i: usize = 0;
    assert(r@ =~= normal_of(chars@.take(0)));
    while i < chars.len()
        invariant
            i <= chars@.len(),
            r@ == normal_of(chars@.take(i as int)),
        decreases chars@.len() - i,
    {
        assert(chars@.take(i + 1).drop_last() =~= chars@.take(i as int));
        let ghost before = r@;
        if text::is_alphanumeric(chars[i]) {
            let lowered = text::char_to_lowercase(chars[i]);
            r.append(lowered.as_str());
        } else {
            assert(r@ =~= before + Seq::<char>::empty());
        }
        i = i + 1;
    }
    assert(chars@.take(i as int) =~= chars@);
    r
}

/// The status of a workflow in one word.
pub open spec fn status_word(workflow: Workflow) -> Seq<char> {
    if workflow.is_in_progress {
        "in_progress"@
    } else {
        match workflow.run_status {
            RunStatus::Success => "success"@,
            RunStatus::Failure => "failure"@,
            RunStatus::Other => "other"@,
        }
    }
}

/// Puts the status of a workflow in one word.
pub fn status_value(workflow: &Workflow) -> (r: &'static str)
    ensures
        r@ == status_word(*workflow),
{
    if workflow.is_in_progress {
        "in_progress"
    } else {
        match workflow.run_status {
            RunStatus::Success => "success",
            RunStatus::Failure => "failure",
            RunStatus::Other => "other",
        }
    }
}

/// What a component of the counts of a period is.
pub open spec fn metric_text(
    counts: RunCounts,
    component: Seq<char>,
    numerals: NumeralsModel,
) -> Seq<char> {
    if component == "pass"@ || component == "passed"@ {
        text::decimal(counts.passed as nat)
    } else if component == "fail"@ || component == "failed"@ {
        text::decimal(counts.failed as nat)
    } else if component == "total"@ {
        text::decimal(counts.total as nat)
    } else if component == "rate"@ || component == "percent"@ || component == "percentage"@
        || component == ""@ {
        numerals.rate(counts)
    } else {
        Seq::empty()
    }
}

/// Tells what a component of the counts of a period is.
pub fn metric_value(counts: RunCounts, component: &str, numerals: &Numerals) -> (r: String)
    ensures
        r@ == metric_text(counts, component@, numerals@),
{
    if text::same(component, "pass") || text::same(component, "passed") {
        text::number_text(counts.passed as u64)
    } else if text::same(component, "fail") || text::same(component, "failed") {
        text::number_text(counts.failed as u64)
    } else if text::same(component, "total") {
        text::number_text(counts.total as u64)
    } else if text::same(component, "rate") || text::same(component, "percent") || text::same(
        component,
        "percentage",
    ) || text::same(component, "") {
        numerals.rate(counts)
    } else {
        let r = String::new();
        assert(r@ =~= Seq::<char>::empty());
        r
    }
}

/// The value of a metric of a workflow, by the normal form of its name.
pub open spec fn metric_of(
    workflow: Workflow,
    field: Seq<char>,
    numerals: NumeralsModel,
) -> Option<Seq<char>> {
    let metrics = workflow.run_metrics;
    if text::begins_with(field, "24h"@) {
        Some(metric_text(metrics.last_24_hours, field.skip(3), numerals))
    } else if text::begins_with(field, "7d"@) {
        Some(metric_text(metrics.last_7_days, field.skip(2), numerals))
    } else if text::begins_with(field, "14d"@) {
        Some(metric_text(metrics.last_14_days, field.skip(3), numerals))
    } else {
        None
    }
}

/// The value of a field of a workflow, by the normal form of its name.
pub open spec fn field_value(
    workflow: Workflow,
    field: Seq<char>,
    numerals: NumeralsModel,
) -> Option<Seq<char>> {
    if field == "name"@ || field == "workflow"@ {
        Some(workflow.name@)
    } else if field == "status"@ || field == "state"@ {
        Some(status_word(workflow))
    } else {
        metric_of(workflow, field, numerals)
    }
}

/// Looks up a metric of a workflow by the normal form of its name.
pub fn metric_field(workflow: &Workflow, field: &str, numerals: &Numerals) -> (r: Option<String>)
    ensures
        text::view_opt(r) == metric_of(*workflow, field@, numerals@),
{
    proof {
        reveal_strlit("24h");
        reveal_strlit("7d");
        reveal_strlit("14d");
    }
    let metrics = workflow.run_metrics;
    if let Some(component) = text::strip_prefix(field, "24h") {
        return Some(metric_value(metrics.last_24_hours, component.as_str(), numerals));
    }
    if let Some(component) = text::strip_prefix(field, "7d") {
        return Some(metric_value(metrics.last_7_days, component.as_str(), numerals));
    }
    if let Some(component) = text::strip_prefix(field, "14d") {
        return Some(metric_value(metrics.last_14_days, component.as_str(), numerals));
    }
    None
}

/// Looks up a field of a workflow by the normal form of its name.
pub fn normal_value(workflow: &Workflow, field: &str, numerals: &Numerals) -> (r: Option<String>)
    ensures
        text::view_opt(r) == field_value(*workflow, field@, numerals@),
{
    if text::same(field, "name") || text::same(field, "workflow") {
        return Some(workflow.name.clone());
    }
    if text::same(field, "status") || text::same(field, "state") {
        return Some(status_value(workflow).to_owned());
    }
    metric_field(workflow, field, numerals)
}

/// Looks up a field of a workflow.
pub fn workflow_value(workflow: &Workflow, field: &str, numerals: &Numerals) -> (r: Option<String>)
    ensures
        text::view_opt(r) == field_value(*workflow, normal_of(field@), numerals@),
{
    normal_value(workflow, normalized(field).as_str(), numerals)
}

/// One clause of a filter.
#[derive(Debug, PartialEq, Eq)]
pub struct Clause {
    pub negated: bool,
    pub field: Option<String>,
    pub values: Vec<String>,
}

/// What a [`Clause`] says.
#[verifier::ext_equal]
pub struct ClauseModel {
    pub negated: bool,
    pub field: Option<Seq<char>>,
    pub values: Seq<Seq<char>>,
}

impl View for Clause {
    type V = ClauseModel;

    open spec fn view(&self) -> ClauseModel {
        ClauseModel {
            negated: self.negated,
            field: text::view_opt(self.field),
            values: text::views(self.values@),
        }
    }
}

impl Clone for Clause {
    fn clone(&self) -> (r: Self)
        ensures
            r@ == self@,
    {
        Clause {
            negated: self.negated,
            field: match &self.field {
                Some(field) => Some(field.clone()),
                None => None,
            },
            values: text::clone_texts(&self.values),
        }
    }
}

/// Whether a word of a name begins with a text, or the name matches a pattern, whatever the
/// case.
pub open spec fn text_matched(
    workflow: Workflow,
    expected: Seq<char>,
    numerals: NumeralsModel,
) -> bool {
    if text::holds_text(expected, "*"@) {
        value_matched(workflow.name@, expected, numerals)
    } else {
        let words = text::pieces(workflow.name@, CharClass::NotAlphanumeric);
        exists|i: int|
            0 <= i < words.len() && text::begins_with(
                text::lowercase(#[trigger] words[i]),
                text::lowercase(expected),
            )
    }
}

fn matches_general_text(workflow: &Workflow, expected: &str, numerals: &Numerals) -> (r: bool)
    ensures
        r == text_matched(*workflow, expected@, numerals@),
{
    if text::contains(expected, "*") {
        return matches_value(workflow.name.as_str(), expected, numerals);
    }
    let words = text::split(workflow.name.as_str(), CharClass::NotAlphanumeric);
    let lowered = text::to_lowercase(expected);
    let ghost all = text::views(words@);
    let mut i: usize = 0;
    while i < words.len()
        invariant
            i <= words@.len(),
            all == text::views(words@),
            all == text::pieces(workflow.name@, CharClass::NotAlphanumeric),
            lowered@ == text::lowercase(expected@),
            !text::holds_text(expected@, "*"@),
            forall|j: int|
                0 <= j < i ==> !text::begins_with(text::lowercase(#[trigger] all[j]), lowered@),
        decreases words@.len() - i,
    {
        assert(all[i as int] == words@[i as int]@);
        if text::starts_with(text::to_lowercase(words[i].as_str()).as_str(), lowered.as_str()) {
            return true;
        }
        i = i + 1;
    }
    false
}

/// What the values of a clause are asked.
#[derive(Clone, Copy, PartialEq, Eq, Structural)]
pub enum Question {
    /// Whether the name holds the value.
    Text,
    /// Whether the field that the value names is filled.
    Has,
    /// Whether the field that the value names is missing or empty.
    No,
    /// Whether the status matches the value.
    Is,
    /// Whether the field of the clause matches the value.
    Field,
}

/// What the values of a clause are asked, by the normal form of its field.
pub open spec fn question_of(field: Option<Seq<char>>) -> Question {
    match field {
        None => Question::Text,
        Some(field) => if field == "has"@ {
            Question::Has
        } else if field == "no"@ {
            Question::No
        } else if field == "is"@ {
            Question::Is
        } else {
            Question::Field
        },
    }
}

/// Whether a text is missing or empty.
pub open spec fn is_blank(value: Option<Seq<char>>) -> bool {
    value is None || value->0.len() == 0
}

/// Whether one value of a clause holds of a workflow. The field of the clause is in normal
/// form.
pub open spec fn value_holds(
    workflow: Workflow,
    field: Option<Seq<char>>,
    value: Seq<char>,
    numerals: NumeralsModel,
) -> bool {
    match question_of(field) {
        Question::Text => text_matched(workflow, value, numerals),
        Question::Has => !is_blank(field_value(workflow, normal_of(value), numerals)),
        Question::No => is_blank(field_value(workflow, normal_of(value), numerals)),
        Question::Is => value_matched(status_word(workflow), value, numerals),
        Question::Field => match field_value(workflow, field->0, numerals) {
            Some(actual) => value_matched(actual, value, numerals),
            None => false,
        },
    }
}

/// Whether some value of a clause holds of a workflow. The field of the clause is in normal
/// form.
pub open spec fn some_value_holds(
    workflow: Workflow,
    field: Option<Seq<char>>,
    values: Seq<Seq<char>>,
    numerals: NumeralsModel,
) -> bool {
    exists|i: int|
        0 <= i < values.len() && value_holds(workflow, field, #[trigger] values[i], numerals)
}

impl ClauseModel {
    /// The normal form of the field.
    pub open spec fn normal_field(self) -> Option<Seq<char>> {
        match self.field {
            Some(field) => Some(normal_of(field)),
            None => None,
        }
    }

    /// Whether the clause, leaving out a negation, holds of a workflow.
    pub open spec fn holds_of(self, workflow: Workflow, numerals: NumeralsModel) -> bool {
        some_value_holds(workflow, self.normal_field(), self.values, numerals)
    }
}

/// Asks whether some value of a clause holds of a workflow. The field of the clause is in
/// normal form.
pub fn any_value_holds(
    workflow: &Workflow,
    field: &Option<String>,
    values: &Vec<String>,
    numerals: &Numerals,
) -> (r: bool)
    ensures
        r == some_value_holds(*workflow, text::view_opt(*field), text::views(values@), numerals@),
{
    let ghost model = text::view_opt(*field);
    let ghost all = text::views(values@);
    let question = match field {
        None => Question::Text,
        Some(field) => if text::same(field.as_str(), "has") {
            Question::Has
        } else if text::same(field.as_str(), "no") {
            Question::No
        } else if text::same(field.as_str(), "is") {
            Question::Is
        } else {
            Question::Field
        },
    };
    let actual = match field {
        Some(field) => normal_value(workflow, field.as_str(), numerals),
        None => None,
    };
    let mut i: usize = 0;
    while i < values.len()
        invariant
            i <= values@.len(),
            all == text::views(values@),
            model == text::view_opt(*field),
            question == question_of(model),
            model is Some ==> text::view_opt(actual) == field_value(*workflow, model->0, numerals@),
            forall|j: int|
                0 <= j < i ==> !value_holds(*workflow, model, #[trigger] all[j], numerals@),
        decreases values@.len() - i,
    {
        assert(all[i as int] == values@[i as int]@);
        let value = values[i].as_str();
        let holds = match question {
            Question::Text => matches_general_text(workflow, value, numerals),
            Question::Has => match workflow_value(workflow, value, numerals) {
                Some(found) => !found.as_str().is_empty(),
                None => false,
            },
            Question::No => match workflow_value(workflow, value, numerals) {
                Some(found) => found.as_str().is_empty(),
                None => true,
            },
            Question::Is => matches_value(status_value(workflow), value, numerals),
            Question::Field => match &actual {
                Some(actual) => matches_value(actual.as_str(), value, numerals),
                None => false,
            },
        };
        assert(holds == value_holds(*workflow, model, all[i as int], numerals@));
        if holds {
            return true;
        }
        i = i + 1;
    }
    false
}

impl Clause {
    /// Tells whether the clause, leaving out a negation, holds of a workflow.
    pub fn matches(&self, workflow: &Workflow, numerals: &Numerals) -> (r: bool)
        ensures
            r == self@.holds_of(*workflow, numerals@),
    {
        let field = match &self.field {
            Some(field) => Some(normalized(field.as_str())),
            None => None,
        };
        any_value_holds(workflow, &field, &self.values, numerals)
    }
}

/// A filter over workflows: a list of clauses that all have to hold.
#[derive(Debug, PartialEq, Eq)]
pub struct FilterExpression {
    pub clauses: Vec<Clause>,
}

impl View for FilterExpression {
    type V = Seq<ClauseModel>;

    open spec fn view(&self) -> Seq<ClauseModel> {
        clause_views(self.clauses@)
    }
}

/// What a list of clauses says.
pub open spec fn clause_views(clauses: Seq<Clause>) -> Seq<ClauseModel> {
    clauses.map_values(|clause: Clause| clause@)
}

/// Whether a filter holds of a workflow.
pub open spec fn filter_holds(
    clauses: Seq<ClauseModel>,
    workflow: Workflow,
    numerals: NumeralsModel,
) -> bool {
    forall|i: int|
        0 <= i < clauses.len() ==> (#[trigger] clauses[i]).holds_of(workflow, numerals)
            != clauses[i].negated
}

impl Clone for FilterExpression {
    fn clone(&self) -> (r: Self)
        ensures
            r@ == self@,
    {
        let mut clauses: Vec<Clause> = Vec::new();
        let mut i: usize = 0;
        while i < self.clauses.len()
            invariant
                i <= self.clauses@.len(),
                clause_views(clauses@) =~= self@.take(i as int),
            decreases self.clauses@.len() - i,
        {
            let ghost before = clauses@;
            clauses.push(self.clauses[i].clone());
            assert(clause_views(clauses@) =~= clause_views(before).push(self@[i as int]));
            i = i + 1;
        }
        assert(self@.take(i as int) =~= self@);
        FilterExpression { clauses }
    }
}

impl FilterExpression {
    /// Tells whether the filter holds of a workflow.
    pub fn matches(&self, workflow: &Workflow, numerals: &Numerals) -> (r: bool)
        ensures
            r == filter_holds(self@, *workflow, numerals@),
    {
        let mut i: usize = 0;
        while i < self.clauses.len()
            invariant
                i <= self.clauses@.len(),
                forall|j: int|
                    0 <= j < i ==> (#[trigger] self@[j]).holds_of(*workflow, numerals@)
                        != self@[j].negated,
            decreases self.clauses@.len() - i,
        {
            assert(self@[i as int] == self.clauses@[i as int]@);
            if self.clauses[i].matches(workflow, numerals) == self.clauses[i].negated {
                return false;
            }
            i = i + 1;
        }
        true
    }
}

/// How far an expression was cut into tokens.
#[verifier::ext_equal]
pub struct TokenizerModel {
    pub tokens: Seq<Seq<char>>,
    pub token: Seq<char>,
    pub quote: Option<char>,
    pub escaped: bool,
}

impl TokenizerModel {
    /// The start of an expression.
    pub open spec fn start() -> TokenizerModel {
        TokenizerModel { tokens: Seq::empty(), token: Seq::empty(), quote: None, escaped: false }
    }

    /// The token in work, ended where it is not empty.
    pub open spec fn ended(self) -> TokenizerModel {
        if self.token.len() > 0 {
            TokenizerModel { tokens: self.tokens.push(self.token), token: Seq::empty(), ..self }
        } else {
            self
        }
    }

    /// One more character. A backslash takes the next character as it stands; blanks end a
    /// token unless they stand in quotes.
    pub open spec fn with_char(self, c: char) -> TokenizerModel {
        if self.escaped {
            TokenizerModel { token: self.token.push(c), escaped: false, ..self }
        } else if c == '\\' {
            TokenizerModel { escaped: true, ..self }
        } else if self.quote == Some(c) {
            TokenizerModel { quote: None, ..self }
        } else if self.quote is None && (c == '\'' || c == '"') {
            TokenizerModel { quote: Some(c), ..self }
        } else if self.quote is None && text::is_space(c) {
            self.ended()
        } else {
            TokenizerModel { token: self.token.push(c), ..self }
        }
    }

    /// The tokens at the end of the expression. A backslash that nothing follows stands for
    /// itself.
    pub open spec fn finished(self) -> Seq<Seq<char>> {
        if self.escaped {
            TokenizerModel { token: self.token.push('\\'), ..self }.ended().tokens
        } else {
            self.ended().tokens
        }
    }
}

/// An expression read as far as its last character.
pub open spec fn tokenizer_after(expression: Seq<char>) -> TokenizerModel
    decreases expression.len(),
{
    if expression.len() == 0 {
        TokenizerModel::start()
    } else {
        tokenizer_after(expression.drop_last()).with_char(expression.last())
    }
}

/// The tokens of an expression, or what is wrong with it.
pub open spec fn tokens_of(expression: Seq<char>) -> Result<Seq<Seq<char>>, Seq<char>> {
    let after = tokenizer_after(expression);
    if after.quote is Some {
        Err("filter contains an unterminated quote"@)
    } else {
        Ok(after.finished())
    }
}

fn end_token(tokens: &mut Vec<String>, token: &mut String)
    ensures
        ({
            let before = TokenizerModel {
                tokens: text::views(old(tokens)@),
                token: old(token)@,
                quote: None,
                escaped: false,
            };
            &&& text::views(final(tokens)@) == before.ended().tokens
            &&& final(token)@ == before.ended().token
        }),
{
    if !token.as_str().is_empty() {
        tokens.push(token.clone());
        *token = String::new();
        assert(token@ =~= Seq::<char>::empty());
    }
}

/// Cuts an expression into tokens.
pub fn tokenize(expression: &str) -> (r: Result<Vec<String>, String>)
    ensures
        match r {
            Ok(tokens) => tokens_of(expression@) == Ok::<Seq<Seq<char>>, Seq<char>>(
                text::views(tokens@),
            ),
            Err(message) => tokens_of(expression@) == Err::<Seq<Seq<char>>, Seq<char>>(message@),
        },
{
    let chars = text::chars_of(expression);
    let mut tokens: Vec<String> = Vec::new();
    let mut token = String::new();
    let mut quote: Option<char> = None;
    let mut escaped = false;
    let mut i: usize = 0;
    assert(text::views(tokens@) =~= Seq::<Seq<char>>::empty());
    assert(token@ =~= Seq::<char>::empty());
    while i < chars.len()
        invariant
            i <= chars@.len(),
            tokenizer_after(chars@.take(i as int)) == (TokenizerModel {
                tokens: text::views(tokens@),
                token: token@,
                quote,
                escaped,
            }),
        decreases chars@.len() - i,
    {
        assert(chars@.take(i + 1).drop_last() =~= chars@.take(i as int));
        let c = chars[i];
        let closes = match quote {
            Some(q) => q == c,
            None => false,
        };
        if escaped {
            token.push(c);
            escaped = false;
        } else if c == '\\' {
            escaped = true;
        } else if closes {
            quote = None;
        } else if quote.is_none() && (c == '\'' || c == '"') {
            quote = Some(c);
        } else if quote.is_none() && CharClass::Space.admits(c) {
            end_token(&mut tokens, &mut token);
        } else {
            token.push(c);
        }
        i = i + 1;
    }
    assert(chars@.take(i as int) =~= chars@);
    if quote.is_some() {
        return Err("filter contains an unterminated quote".to_owned());
    }
    if escaped {
        token.push('\\');
    }
    end_token(&mut tokens, &mut token);
    Ok(tokens)
}

/// The first value that is a keyword.
pub open spec fn first_keyword(values: Seq<Seq<char>>) -> Option<Seq<char>>
    decreases values.len(),
{
    if values.len() == 0 {
        None
    } else {
        match first_keyword(values.drop_last()) {
            Some(keyword) => Some(keyword),
            None => if text::begins_with(values.last(), "@"@) {
                Some(values.last())
            } else {
                None
            },
        }
    }
}

/// The clause that a token gives, or what is wrong with it.
pub open spec fn clause_of(token: Seq<char>) -> Result<ClauseModel, Seq<char>> {
    let negated = text::begins_with(token, "-"@);
    let body = if negated {
        token.skip(1)
    } else {
        token
    };
    let (field, value) = match text::cut_first(body, ":"@) {
        Some((field, value)) => (Some(field), value),
        None => (None, body),
    };
    let values = text::pieces(value, CharClass::Is(','));
    if body.len() == 0 {
        Err("filter contains an empty negated clause"@)
    } else if value.len() == 0 {
        Err("filter clause '"@ + body + "' is missing a value"@)
    } else if first_keyword(values) is Some {
        Err("filter keyword '"@ + first_keyword(values)->0 + "' is not supported"@)
    } else {
        Ok(ClauseModel { negated, field, values })
    }
}

/// The clauses that some tokens give, or what is wrong with the first that gives none.
pub open spec fn clauses_of(tokens: Seq<Seq<char>>) -> Result<Seq<ClauseModel>, Seq<char>>
    decreases tokens.len(),
{
    if tokens.len() == 0 {
        Ok(Seq::empty())
    } else {
        match clauses_of(tokens.drop_last()) {
            Err(message) => Err(message),
            Ok(clauses) => match clause_of(tokens.last()) {
                Err(message) => Err(message),
                Ok(clause) => Ok(clauses.push(clause)),
            },
        }
    }
}

/// The filter that an expression gives, or what is wrong with it.
pub open spec fn filter_of(expression: Seq<char>) -> Result<Seq<ClauseModel>, Seq<char>> {
    match tokens_of(expression) {
        Err(message) => Err(message),
        Ok(tokens) => clauses_of(tokens),
    }
}

/// The outcome of reading a filter, by what it says.
pub open spec fn filter_view(r: Result<FilterExpression, String>) -> Result<
    Seq<ClauseModel>,
    Seq<char>,
> {
    match r {
        Ok(filter) => Ok(filter@),
        Err(message) => Err(message@),
    }
}

fn find_keyword(values: &Vec<String>) -> (r: Option<String>)
    ensures
        text::view_opt(r) == first_keyword(text::views(values@)),
{
    let ghost all = text::views(values@);
    let mut r: Option<String> = None;
    let mut i: usize = 0;
    while i < values.len()
        invariant
            i <= values@.len(),
            all == text::views(values@),
            text::view_opt(r) == first_keyword(all.take(i as int)),
        decreases values@.len() - i,
    {
        assert(all.take(i + 1).drop_last() =~= all.take(i as int));
        assert(all.take(i + 1).last() == values@[i as int]@);
        if r.is_none() && text::starts_with(values[i].as_str(), "@") {
            r = Some(values[i].clone());
        }
        i = i + 1;
    }
    assert(all.take(i as int) =~= all);
    r
}

/// Puts a text between two others.
fn quoted(before: &str, t: &str, after: &str) -> (r: String)
    ensures
        r@ == before@ + t@ + after@,
{
    let mut r = text::concat(before, t);
    r.append(after);
    r
}

fn parse_clause(token: &str) -> (r: Result<Clause, String>)
    ensures
        match r {
            Ok(clause) => clause_of(token@) == Ok::<ClauseModel, Seq<char>>(clause@),
            Err(message) => clause_of(token@) == Err::<ClauseModel, Seq<char>>(message@),
        },
{
    proof {
        reveal_strlit("-");
    }
    let (negated, body) = match text::strip_prefix(token, "-") {
        Some(body) => (true, body),
        None => (false, token.to_owned()),
    };
    if body.as_str().is_empty() {
        return Err("filter contains an empty negated clause".to_owned());
    }
    let (field, value) = match text::split_once(body.as_str(), ":") {
        Some((field, value)) => (Some(field), value),
        None => (None, body.clone()),
    };
    if value.as_str().is_empty() {
        return Err(quoted("filter clause '", body.as_str(), "' is missing a value"));
    }
    let values = text::split(value.as_str(), CharClass::Is(','));
    if let Some(keyword) = find_keyword(&values) {
        return Err(quoted("filter keyword '", keyword.as_str(), "' is not supported"));
    }
    Ok(Clause { negated, field, values })
}

proof fn lemma_clauses_fail(tokens: Seq<Seq<char>>, upto: int)
    requires
        0 <= upto <= tokens.len(),
        clauses_of(tokens.take(upto)) is Err,
    ensures
        clauses_of(tokens) == clauses_of(tokens.take(upto)),
    decreases tokens.len(),
{
    if upto == tokens.len() {
        assert(tokens.take(upto) =~= tokens);
    } else {
        assert(tokens.drop_last().take(upto) =~= tokens.take(upto));
        lemma_clauses_fail(tokens.drop_last(), upto);
    }
}

impl FilterExpression {
    /// Reads a filter.
    pub fn parse(expression: &str) -> (r: Result<FilterExpression, String>)
        ensures
            filter_view(r) == filter_of(expression@),
    {
        let tokens = match tokenize(expression) {
            Ok(tokens) => tokens,
            Err(message) => {
                return Err(message);
            },
        };
        let ghost all = text::views(tokens@);
        let mut clauses: Vec<Clause> = Vec::new();
        let mut i: usize = 0;
        assert(clause_views(clauses@) =~= Seq::<ClauseModel>::empty());
        while i < tokens.len()
            invariant
                i <= tokens@.len(),
                all == text::views(tokens@),
                filter_of(expression@) == clauses_of(all),
                clauses_of(all.take(i as int)) == Ok::<Seq<ClauseModel>, Seq<char>>(
                    clause_views(clauses@),
                ),
            decreases tokens@.len() - i,
        {
            assert(all.take(i + 1).drop_last() =~= all.take(i as int));
            assert(all.take(i + 1).last() == tokens@[i as int]@);
            match parse_clause(tokens[i].as_str()) {
                Ok(clause) => {
                    let ghost before = clauses@;
                    clauses.push(clause);
                    assert(clause_views(clauses@) =~= clause_views(before).push(clause@));
                },
                Err(message) => {
                    proof {
                        lemma_clauses_fail(all, i + 1);
                    }
                    return Err(message);
                },
            }
            i = i + 1;
        }
        assert(all.take(i as int) =~= all);
        Ok(FilterExpression { clauses })
    }
}

/// How workflows are sorted.
#[derive(Debug, PartialEq, Eq)]
pub struct SortSpec {
    pub field: String,
    pub descending: bool,
}

/// What a [`SortSpec`] says.
#[verifier::ext_equal]
pub struct SortModel {
    pub field: Seq<char>,
    pub descending: bool,
}

impl View for SortSpec {
    type V = SortModel;

    open spec fn view(&self) -> SortModel {
        SortModel { field: self.field@, descending: self.descending }
    }
}

impl Clone for SortSpec {
    fn clone(&self) -> (r: Self)
        ensures
            r == *self,
    {
        SortSpec { field: self.field.clone(), descending: self.descending }
    }
}

/// Whether two characters are the same but for the case of a letter of ASCII.
pub open spec fn same_letter(c: char, d: char) -> bool {
    ||| c == d
    ||| 'A' <= c <= 'Z' && c as u32 + 32 == d as u32
    ||| 'A' <= d <= 'Z' && d as u32 + 32 == c as u32
}

/// Whether two texts are the same but for the case of letters of ASCII.
pub open spec fn same_letters(a: Seq<char>, b: Seq<char>) -> bool {
    &&& a.len() == b.len()
    &&& forall|i: int| 0 <= i < a.len() ==> same_letter(#[trigger] a[i], b[i])
}

/// Tells whether two texts are the same but for the case of letters of ASCII.
pub fn eq_ignore_ascii_case(a: &str, b: &str) -> (r: bool)
    ensures
        r == same_letters(a@, b@),
{
    let left = text::chars_of(a);
    let right = text::chars_of(b);
    if left.len() != right.len() {
        return false;
    }
    let mut i: usize = 0;
    while i < left.len()
        invariant
            i <= left@.len(),
            left@ == a@,
            right@ == b@,
            left@.len() == right@.len(),
            forall|j: int| 0 <= j < i ==> same_letter(#[trigger] a@[j], b@[j]),
        decreases left@.len() - i,
    {
        let c = left[i];
        let d = right[i];
        if c != d && !('A' <= c && c <= 'Z' && c as u32 + 32 == d as u32) && !('A' <= d && d <= 'Z'
            && d as u32 + 32 == c as u32) {
            assert(!same_letter(a@[i as int], b@[i as int]));
            return false;
        }
        i = i + 1;
    }
    true
}

/// The sort that a specification gives, or what is wrong with it.
pub open spec fn sort_of(specification: Seq<char>) -> Result<SortModel, Seq<char>> {
    let given = text::trimmed(specification);
    if given.len() == 0 {
        Err("sort is missing a field"@)
    } else {
        match text::cut_last(given, ":"@) {
            Some((field, direction)) => if same_letters(direction, "asc"@) {
                sort_by_field(field, false)
            } else if same_letters(direction, "desc"@) {
                sort_by_field(field, true)
            } else {
                Err("invalid sort direction '"@ + direction + "'; use asc or desc"@)
            },
            None => sort_by_field(given, false),
        }
    }
}

/// The sort by a field whose name may stand in quotes.
pub open spec fn sort_by_field(field: Seq<char>, descending: bool) -> Result<SortModel, Seq<char>> {
    let name = text::trimmed(text::trim_of(field, CharClass::Quote));
    if name.len() == 0 {
        Err("sort is missing a field"@)
    } else {
        Ok(SortModel { field: name, descending })
    }
}

/// The outcome of reading a sort, by what it says.
pub open spec fn sort_view(r: Result<SortSpec, String>) -> Result<SortModel, Seq<char>> {
    match r {
        Ok(sort) => Ok(sort@),
        Err(message) => Err(message@),
    }
}

impl SortSpec {
    /// Reads a sort.
    pub fn parse(specification: &str) -> (r: Result<SortSpec, String>)
        ensures
            sort_view(r) == sort_of(specification@),
    {
        let given = text::trim(specification);
        if given.as_str().is_empty() {
            return Err("sort is missing a field".to_owned());
        }
        let (field, descending) = match text::rsplit_once(given.as_str(), ":") {
            Some((field, direction)) => if eq_ignore_ascii_case(direction.as_str(), "asc") {
                (field, false)
            } else if eq_ignore_ascii_case(direction.as_str(), "desc") {
                (field, true)
            } else {
                return Err(
                    quoted("invalid sort direction '", direction.as_str(), "'; use asc or desc"),
                );
            },
            None => (given.clone(), false),
        };
        let field = text::trim(text::trim_matches(field.as_str(), CharClass::Quote).as_str());
        if field.as_str().is_empty() {
            return Err("sort is missing a field".to_owned());
        }
        Ok(SortSpec { field, descending })
    }
}

/// The reverse of an order.
pub open spec fn reversed(order: Order) -> Order {
    match order {
        Order::Less => Order::Greater,
        Order::Equal => Order::Equal,
        Order::Greater => Order::Less,
    }
}

/// How two values sort. What is missing comes last either way, and what does not compare is
/// left in place.
pub open spec fn key_order(
    a: Option<ScalarModel>,
    b: Option<ScalarModel>,
    descending: bool,
) -> Order {
    match (a, b) {
        (Some(a), Some(b)) => {
            let order = match scalar_order(a, b) {
                Some(order) => order,
                None => Order::Equal,
            };
            if descending {
                reversed(order)
            } else {
                order
            }
        },
        (Some(_), None) => Order::Less,
        (None, Some(_)) => Order::Greater,
        (None, None) => Order::Equal,
    }
}

/// A value as it is sorted by.
pub open spec fn key_view(key: Option<Scalar>) -> Option<ScalarModel> {
    match key {
        Some(key) => Some(key@),
        None => None,
    }
}

/// Tells how two values sort.
pub fn compare_optional(a: &Option<Scalar>, b: &Option<Scalar>, descending: bool) -> (r: Order)
    ensures
        r == key_order(key_view(*a), key_view(*b), descending),
{
    match (a, b) {
        (Some(a), Some(b)) => {
            let order = match compare_scalar(a, b) {
                Some(order) => order,
                None => Order::Equal,
            };
            if !descending {
                order
            } else {
                match order {
                    Order::Less => Order::Greater,
                    Order::Equal => Order::Equal,
                    Order::Greater => Order::Less,
                }
            }
        },
        (Some(_), None) => Order::Less,
        (None, Some(_)) => Order::Greater,
        (None, None) => Order::Equal,
    }
}

/// A sort with all that it depends on. The field is in normal form.
pub struct Sorting {
    pub field: Seq<char>,
    pub descending: bool,
    pub numerals: NumeralsModel,
}

impl Sorting {
    /// The value that a workflow is sorted by, where it has one.
    pub open spec fn key(self, workflow: Workflow) -> Option<ScalarModel> {
        let value = field_value(workflow, self.field, self.numerals);
        if is_blank(value) {
            None
        } else {
            Some(scalar_of(value->0, self.numerals))
        }
    }

    /// How two workflows sort.
    #[verifier::opaque]
    pub open spec fn order(self, a: Workflow, b: Workflow) -> Order {
        key_order(self.key(a), self.key(b), self.descending)
    }

    /// Workflows in order, with one more in its place: behind those that it does not come
    /// before.
    pub open spec fn with_item(self, list: Seq<Workflow>, workflow: Workflow) -> Seq<Workflow>
        decreases list.len(),
    {
        if list.len() == 0 || self.order(workflow, list.last()) != Order::Less {
            list.push(workflow)
        } else {
            self.with_item(list.drop_last(), workflow).push(list.last())
        }
    }

    /// The workflows in order.
    pub open spec fn sorted(self, list: Seq<Workflow>) -> Seq<Workflow>
        decreases list.len(),
    {
        if list.len() == 0 {
            Seq::empty()
        } else {
            self.with_item(self.sorted(list.drop_last()), list.last())
        }
    }
}

/// Whether an optional filter holds of a workflow.
pub open spec fn passes(
    filter: Option<Seq<ClauseModel>>,
    workflow: Workflow,
    numerals: NumeralsModel,
) -> bool {
    filter is None || filter_holds(filter->0, workflow, numerals)
}

/// The workflows that a filter lets through, in the order that a sort gives them.
pub open spec fn selection(
    workflows: Seq<Workflow>,
    filter: Option<Seq<ClauseModel>>,
    sort: Option<SortModel>,
    numerals: NumeralsModel,
) -> Seq<Workflow> {
    let kept = workflows.filter(|workflow: Workflow| passes(filter, workflow, numerals));
    match sort {
        Some(sort) => (Sorting {
            field: normal_of(sort.field),
            descending: sort.descending,
            numerals,
        }).sorted(kept),
        None => kept,
    }
}

/// The workflows that references point at.
pub open spec fn pointed(list: Seq<&Workflow>) -> Seq<Workflow> {
    list.map_values(|workflow: &Workflow| *workflow)
}

/// What an optional filter says.
pub open spec fn filter_model(filter: Option<&FilterExpression>) -> Option<Seq<ClauseModel>> {
    match filter {
        Some(filter) => Some(filter@),
        None => None,
    }
}

/// What an optional sort says.
pub open spec fn sort_model(sort: Option<&SortSpec>) -> Option<SortModel> {
    match sort {
        Some(sort) => Some(sort@),
        None => None,
    }
}

fn sort_key(workflow: &Workflow, field: &str, numerals: &Numerals) -> (r: Option<Scalar>)
    ensures
        forall|descending: bool|
            key_view(r) == (#[trigger] Sorting {
                field: field@,
                descending,
                numerals: numerals@,
            }.key(*workflow)),
{
    match normal_value(workflow, field, numerals) {
        Some(value) => if value.as_str().is_empty() {
            None
        } else {
            Some(scalar(value.as_str(), numerals))
        },
        None => None,
    }
}

/// Sorts workflows by a field, whose name is in normal form.
pub fn sort_workflows<'a>(
    workflows: &Vec<&'a Workflow>,
    field: &str,
    descending: bool,
    numerals: &Numerals,
) -> (r: Vec<&'a Workflow>)
    ensures
        pointed(r@) == (Sorting { field: field@, descending, numerals: numerals@ }).sorted(
            pointed(workflows@),
        ),
{
    let ghost sorting = Sorting { field: field@, descending, numerals: numerals@ };
    let ghost all = pointed(workflows@);
    let mut r: Vec<&'a Workflow> = Vec::new();
    let mut keys: Vec<Option<Scalar>> = Vec::new();
    let mut i: usize = 0;
    assert(pointed(r@) =~= sorting.sorted(all.take(0)));
    while i < workflows.len()
        invariant
            i <= workflows@.len(),
            all == pointed(workflows@),
            sorting == (Sorting { field: field@, descending, numerals: numerals@ }),
            pointed(r@) == sorting.sorted(all.take(i as int)),
            keys@.len() == r@.len(),
            forall|k: int|
                0 <= k < keys@.len() ==> key_view(#[trigger] keys@[k]) == sorting.key(*r@[k]),
        decreases workflows@.len() - i,
    {
        assert(all.take(i + 1).drop_last() =~= all.take(i as int));
        assert(all.take(i + 1).last() == *workflows@[i as int]);
        let workflow = workflows[i];
        let key = sort_key(workflow, field, numerals);
        let ghost before = pointed(r@);
        let mut at: usize = r.len();
        assert(before.take(at as int) =~= before);
        assert(sorting.with_item(before, *workflow) + before.skip(at as int)
            =~= sorting.with_item(before, *workflow));
        while at > 0 && compare_optional(&key, &keys[at - 1], descending) == Order::Less
            invariant
                at <= r@.len(),
                keys@.len() == r@.len(),
                before == pointed(r@),
                sorting.descending == descending,
                key_view(key) == sorting.key(*workflow),
                forall|k: int|
                    0 <= k < keys@.len() ==> key_view(#[trigger] keys@[k]) == sorting.key(*r@[k]),
                sorting.with_item(before, *workflow) == sorting.with_item(
                    before.take(at as int),
                    *workflow,
                ) + before.skip(at as int),
            decreases at,
        {
            proof {
                reveal(Sorting::order);
            }
            let ghost head = before.take(at as int);
            assert(head.drop_last() =~= before.take(at - 1));
            assert(head.last() == *r@[at - 1]);
            assert(key_view(keys@[at - 1]) == sorting.key(*r@[at - 1]));
            assert(sorting.with_item(head.drop_last(), *workflow).push(head.last()) + before.skip(
                at as int,
            ) =~= sorting.with_item(head.drop_last(), *workflow) + before.skip(at - 1));
            at = at - 1;
        }
        if at > 0 {
            proof {
                reveal(Sorting::order);
            }
            assert(before.take(at as int).last() == *r@[at - 1]);
            assert(key_view(keys@[at - 1]) == sorting.key(*r@[at - 1]));
        }
        let ghost keys_before = keys@;
        let ghost r_before = r@;
        r.insert(at, workflow);
        keys.insert(at, key);
        assert(pointed(r@) =~= before.take(at as int).push(*workflow) + before.skip(at as int));
        assert forall|k: int| 0 <= k < keys@.len() implies key_view(#[trigger] keys@[k])
            == sorting.key(*r@[k]) by {
            if k < at {
                assert(keys@[k] == keys_before[k]);
                assert(r@[k] == r_before[k]);
            } else if k > at {
                assert(keys@[k] == keys_before[k - 1]);
                assert(r@[k] == r_before[k - 1]);
            }
        }
        i = i + 1;
    }
    assert(all.take(i as int) =~= all);
    r
}

/// Selects the workflows that a filter lets through, in the order that a sort gives them.
pub fn select_workflows<'a>(
    workflows: &'a [Workflow],
    filter: Option<&FilterExpression>,
    sort: Option<&SortSpec>,
    numerals: &Numerals,
) -> (r: Vec<&'a Workflow>)
    ensures
        pointed(r@) == selection(
            workflows@,
            filter_model(filter),
            sort_model(sort),
            numerals@,
        ),
{
    let ghost test = |workflow: Workflow| passes(filter_model(filter), workflow, numerals@);
    let mut kept: Vec<&'a Workflow> = Vec::new();
    let mut i: usize = 0;
    assert(pointed(kept@) =~= workflows@.take(0).filter(test)) by {
        reveal(Seq::filter);
    }
    while i < workflows.len()
        invariant
            i <= workflows@.len(),
            test == (|workflow: Workflow| passes(filter_model(filter), workflow, numerals@)),
            pointed(kept@) == workflows@.take(i as int).filter(test),
        decreases workflows@.len() - i,
    {
        proof {
            reveal(Seq::filter);
            assert(workflows@.take(i + 1).drop_last() =~= workflows@.take(i as int));
        }
        let workflow = &workflows[i];
        let ghost before = kept@;
        let passes = match filter {
            Some(filter) => filter.matches(workflow, numerals),
            None => true,
        };
        if passes {
            kept.push(workflow);
            assert(pointed(kept@) =~= pointed(before).push(*workflow));
        }
        i = i + 1;
    }
    assert(workflows@.take(i as int) =~= workflows@);
    match sort {
        Some(sort) => sort_workflows(
            &kept,
            normalized(sort.field.as_str()).as_str(),
            sort.descending,
            numerals,
        ),
        None => kept,
    }
}

impl Sorting {
    /// Whether the order is one that workflows can be brought into: of three workflows, where
    /// the first does not come behind the second nor the second behind the third, the first
    /// does not come behind the third.
    pub open spec fn is_consistent(self, list: Seq<Workflow>) -> bool {
        forall|a: Workflow, b: Workflow, c: Workflow|
            #![trigger self.order(a, b), self.order(b, c)]
            list.contains(a) && list.contains(b) && list.contains(c) && self.order(a, b)
                != Order::Greater && self.order(b, c) != Order::Greater ==> self.order(a, c)
                != Order::Greater
    }

    /// Whether no workflow comes behind one that follows it.
    pub open spec fn is_sorted(self, list: Seq<Workflow>) -> bool {
        forall|i: int, j: int|
            0 <= i < j < list.len() ==> self.order(#[trigger] list[i], #[trigger] list[j])
                != Order::Greater
    }

    /// The workflows that sort as one does, in their order.
    pub open spec fn peers(self, list: Seq<Workflow>, of: Workflow) -> Seq<Workflow> {
        list.filter(|workflow: Workflow| self.order(workflow, of) == Order::Equal)
    }
}

/// The two ways to compare two workflows agree.
proof fn lemma_order_reverses(sorting: Sorting, a: Workflow, b: Workflow)
    ensures
        sorting.order(b, a) == reversed(sorting.order(a, b)),
        sorting.order(a, a) == Order::Equal,
{
    reveal(Sorting::order);
    match (sorting.key(a), sorting.key(b)) {
        (Some(x), Some(y)) => {
            text::lemma_text_less_total(x.lowered, y.lowered);
            text::lemma_text_less_total(x.lowered, x.lowered);
        },
        (Some(x), None) => {
            text::lemma_text_less_total(x.lowered, x.lowered);
        },
        _ => {},
    }
}

proof fn lemma_with_item_members(sorting: Sorting, list: Seq<Workflow>, workflow: Workflow)
    ensures
        sorting.with_item(list, workflow).to_multiset() == list.to_multiset().insert(workflow),
        sorting.with_item(list, workflow).len() == list.len() + 1,
        forall|w: Workflow|
            #[trigger] sorting.with_item(list, workflow).contains(w) ==> w == workflow
                || list.contains(w),
    decreases list.len(),
{
    broadcast use vstd::seq_lib::group_to_multiset_ensures;

    let after = sorting.with_item(list, workflow);
    if list.len() == 0 || sorting.order(workflow, list.last()) != Order::Less {
        assert forall|w: Workflow| #[trigger] after.contains(w) implies w == workflow
            || list.contains(w) by {
            let i = choose|i: int| 0 <= i < after.len() && after[i] == w;
            if i < list.len() {
                assert(list[i] == w);
            }
        }
    } else {
        let front = list.drop_last();
        let inner = sorting.with_item(front, workflow);
        lemma_with_item_members(sorting, front, workflow);
        assert(list =~= front.push(list.last()));
        assert(inner.push(list.last()).to_multiset() =~= list.to_multiset().insert(workflow));
        assert forall|w: Workflow| #[trigger] after.contains(w) implies w == workflow
            || list.contains(w) by {
            let i = choose|i: int| 0 <= i < after.len() && after[i] == w;
            if i < inner.len() {
                assert(inner[i] == w);
                assert(inner.contains(w));
                if w != workflow {
                    assert(front.contains(w));
                    let k = choose|k: int| 0 <= k < front.len() && front[k] == w;
                    assert(list[k] == w);
                }
            } else {
                assert(list[list.len() - 1] == w);
            }
        }
    }
}

/// Sorting loses and adds no workflow.
pub proof fn law_sort_permutes(sorting: Sorting, list: Seq<Workflow>)
    ensures
        sorting.sorted(list).to_multiset() == list.to_multiset(),
        sorting.sorted(list).len() == list.len(),
    decreases list.len(),
{
    broadcast use vstd::seq_lib::group_to_multiset_ensures;

    if list.len() > 0 {
        let front = list.drop_last();
        law_sort_permutes(sorting, front);
        lemma_with_item_members(sorting, sorting.sorted(front), list.last());
        assert(list =~= front.push(list.last()));
    } else {
        assert(sorting.sorted(list) =~= list);
    }
}

proof fn lemma_with_item_sorted(
    sorting: Sorting,
    all: Seq<Workflow>,
    list: Seq<Workflow>,
    workflow: Workflow,
)
    requires
        sorting.is_consistent(all),
        sorting.is_sorted(list),
        all.contains(workflow),
        forall|w: Workflow| #[trigger] list.contains(w) ==> all.contains(w),
    ensures
        sorting.is_sorted(sorting.with_item(list, workflow)),
        forall|of: Workflow|
            all.contains(of) ==> #[trigger] sorting.peers(sorting.with_item(list, workflow), of)
                == sorting.peers(list.push(workflow), of),
    decreases list.len(),
{
    let after = sorting.with_item(list, workflow);
    if list.len() == 0 || sorting.order(workflow, list.last()) != Order::Less {
        assert(after == list.push(workflow));
        assert forall|i: int, j: int| 0 <= i < j < after.len() implies sorting.order(
            #[trigger] after[i],
            #[trigger] after[j],
        ) != Order::Greater by {
            if j == list.len() {
                let last = list.last();
                assert(list.contains(list[i]));
                assert(list.contains(last));
                lemma_order_reverses(sorting, workflow, last);
                assert(sorting.order(last, workflow) != Order::Greater);
                if i < list.len() - 1 {
                    assert(sorting.order(list[i], list[list.len() - 1]) != Order::Greater);
                } else {
                    lemma_order_reverses(sorting, last, last);
                }
            }
        }
    } else {
        let front = list.drop_last();
        let last = list.last();
        let inner = sorting.with_item(front, workflow);
        assert(list[list.len() - 1] == last);
        assert(list.contains(last));
        assert forall|w: Workflow| #[trigger] front.contains(w) implies all.contains(w) by {
            let k = choose|k: int| 0 <= k < front.len() && front[k] == w;
            assert(list[k] == w);
            assert(list.contains(w));
        }
        assert(sorting.is_sorted(front)) by {
            assert forall|i: int, j: int| 0 <= i < j < front.len() implies sorting.order(
                #[trigger] front[i],
                #[trigger] front[j],
            ) != Order::Greater by {
                assert(sorting.order(list[i], list[j]) != Order::Greater);
            }
        }
        lemma_with_item_sorted(sorting, all, front, workflow);
        lemma_with_item_members(sorting, front, workflow);
        assert forall|i: int, j: int| 0 <= i < j < after.len() implies sorting.order(
            #[trigger] after[i],
            #[trigger] after[j],
        ) != Order::Greater by {
            if j == inner.len() {
                assert(inner.contains(inner[i]));
                if inner[i] != workflow {
                    assert(front.contains(inner[i]));
                    let k = choose|k: int| 0 <= k < front.len() && front[k] == inner[i];
                    assert(sorting.order(list[k], list[list.len() - 1]) != Order::Greater);
                }
            } else {
                assert(sorting.order(inner[i], inner[j]) != Order::Greater);
            }
        }
        assert forall|of: Workflow| all.contains(of) implies #[trigger] sorting.peers(after, of)
            == sorting.peers(list.push(workflow), of) by {
            reveal(Seq::filter);
            assert(inner.push(last).drop_last() =~= inner);
            assert(list.push(workflow).drop_last() =~= list);
            assert(front.push(workflow).drop_last() =~= front);
            assert(sorting.peers(inner, of) == sorting.peers(front.push(workflow), of));
            assert(sorting.peers(list, of) == (if sorting.order(last, of) == Order::Equal {
                sorting.peers(front, of).push(last)
            } else {
                sorting.peers(front, of)
            }));
            if sorting.order(last, of) == Order::Equal && sorting.order(workflow, of)
                == Order::Equal {
                lemma_order_reverses(sorting, workflow, of);
                lemma_order_reverses(sorting, workflow, last);
                assert(sorting.order(last, of) != Order::Greater);
                assert(sorting.order(of, workflow) != Order::Greater);
                assert(sorting.order(last, workflow) != Order::Greater);
            }
        }
    }
}

/// Where the order is consistent, sorted workflows are in order, and those that sort alike
/// keep their order.
pub proof fn law_sort_orders_and_is_stable(sorting: Sorting, list: Seq<Workflow>)
    requires
        sorting.is_consistent(list),
    ensures
        sorting.is_sorted(sorting.sorted(list)),
        forall|of: Workflow|
            list.contains(of) ==> #[trigger] sorting.peers(sorting.sorted(list), of)
                == sorting.peers(list, of),
{
    lemma_sorted_prefix(sorting, list, list.len() as int);
    assert(list.take(list.len() as int) =~= list);
}

proof fn lemma_sorted_prefix(sorting: Sorting, list: Seq<Workflow>, upto: int)
    requires
        sorting.is_consistent(list),
        0 <= upto <= list.len(),
    ensures
        sorting.is_sorted(sorting.sorted(list.take(upto))),
        forall|w: Workflow|
            #[trigger] sorting.sorted(list.take(upto)).contains(w) ==> list.contains(w),
        forall|of: Workflow|
            list.contains(of) ==> #[trigger] sorting.peers(sorting.sorted(list.take(upto)), of)
                == sorting.peers(list.take(upto), of),
    decreases upto,
{
    if upto > 0 {
        let part = list.take(upto);
        let front = list.take(upto - 1);
        let last = list[upto - 1];
        lemma_sorted_prefix(sorting, list, upto - 1);
        assert(part.drop_last() =~= front);
        assert(list.contains(last));
        lemma_with_item_sorted(sorting, list, sorting.sorted(front), last);
        lemma_with_item_members(sorting, sorting.sorted(front), last);
        assert(part =~= front.push(last));
        assert forall|of: Workflow| list.contains(of) implies #[trigger] sorting.peers(
            sorting.sorted(part),
            of,
        ) == sorting.peers(part, of) by {
            reveal(Seq::filter);
            let before = sorting.sorted(front);
            assert(before.push(last).drop_last() =~= before);
            assert(sorting.peers(before, of) == sorting.peers(front, of));
            assert(sorting.peers(sorting.with_item(before, last), of) == sorting.peers(
                before.push(last),
                of,
            ));
        }
    } else {
        assert(sorting.sorted(list.take(0)) =~= list.take(0));
    }
}

/// Values of one kind always sort: where every workflow that has a value has one that reads as
/// a number, or none has one that does, the order is consistent.
pub proof fn law_values_of_one_kind_are_consistent(sorting: Sorting, list: Seq<Workflow>)
    requires
        (forall|w: Workflow|
            #![trigger sorting.key(w)]
            list.contains(w) && sorting.key(w) is Some ==> sorting.key(w)->0.number matches Some(
                Number::At(_),
            )) || (forall|w: Workflow|
            #![trigger sorting.key(w)]
            list.contains(w) && sorting.key(w) is Some ==> sorting.key(w)->0.number is None),
    ensures
        sorting.is_consistent(list),
{
    assert forall|a: Workflow, b: Workflow, c: Workflow|
        #![trigger sorting.order(a, b), sorting.order(b, c)]
        list.contains(a) && list.contains(b) && list.contains(c) && sorting.order(a, b)
            != Order::Greater && sorting.order(b, c) != Order::Greater implies sorting.order(a, c)
        != Order::Greater by {
        reveal(Sorting::order);
        match (sorting.key(a), sorting.key(b), sorting.key(c)) {
            (Some(x), Some(y), Some(z)) => {
                text::lemma_text_less_total(x.lowered, y.lowered);
                text::lemma_text_less_total(y.lowered, z.lowered);
                text::lemma_text_less_total(x.lowered, z.lowered);
                if text::text_less(x.lowered, y.lowered) && text::text_less(y.lowered, z.lowered) {
                    text::lemma_text_less_transitive(x.lowered, y.lowered, z.lowered);
                }
                if text::text_less(y.lowered, x.lowered) && text::text_less(z.lowered, y.lowered) {
                    text::lemma_text_less_transitive(z.lowered, y.lowered, x.lowered);
                }
            },
            _ => {},
        }
    }
}

/// A filter with no clauses lets every workflow through, and without a sort the workflows keep
/// their order.
pub proof fn law_empty_filter_selects_all(workflows: Seq<Workflow>, numerals: NumeralsModel)
    ensures
        selection(workflows, Some(Seq::<ClauseModel>::empty()), None, numerals) == workflows,
        selection(workflows, None, None, numerals) == workflows,
    decreases workflows.len(),
{
    reveal(Seq::filter);
    if workflows.len() > 0 {
        law_empty_filter_selects_all(workflows.drop_last(), numerals);
        assert(workflows.drop_last().push(workflows.last()) =~= workflows);
    } else {
        assert(selection(workflows, None, None, numerals) =~= workflows);
        assert(selection(workflows, Some(Seq::<ClauseModel>::empty()), None, numerals)
            =~= workflows);
    }
}

/// Whether a text is a word of small letters and underscores.
pub open spec fn is_word(t: Seq<char>) -> bool {
    t.len() > 0 && forall|i: int|
        0 <= i < t.len() ==> 'a' <= #[trigger] t[i] <= 'z' || t[i] == '_'
}

/// Whether the filter of one field and one value holds of a workflow.
pub open spec fn selects(
    field: Seq<char>,
    value: Seq<char>,
    workflow: Workflow,
    numerals: NumeralsModel,
) -> bool {
    match filter_of(field + ":"@ + value) {
        Ok(clauses) => filter_holds(clauses, workflow, numerals),
        Err(_) => false,
    }
}

proof fn lemma_plain_tokens(t: Seq<char>)
    requires
        forall|i: int|
            0 <= i < t.len() ==> 'a' <= #[trigger] t[i] <= 'z' || t[i] == '_' || t[i] == ':',
    ensures
        tokenizer_after(t) == (TokenizerModel { token: t, ..TokenizerModel::start() }),
    decreases t.len(),
{
    if t.len() > 0 {
        let front = t.drop_last();
        assert forall|i: int| 0 <= i < front.len() implies 'a' <= #[trigger] front[i] <= 'z'
            || front[i] == '_' || front[i] == ':' by {
            assert(front[i] == t[i]);
        }
        lemma_plain_tokens(front);
        assert(t.last() == t[t.len() - 1]);
        assert(front.push(t.last()) =~= t);
    } else {
        assert(t =~= Seq::<char>::empty());
    }
}

/// The filter of one field and one value, both of them words, is read as that.
proof fn lemma_word_filter(field: Seq<char>, value: Seq<char>)
    requires
        is_word(field),
        is_word(value),
    ensures
        filter_of(field + ":"@ + value) == Ok::<Seq<ClauseModel>, Seq<char>>(
            seq![ClauseModel { negated: false, field: Some(field), values: seq![value] }],
        ),
{
    reveal_strlit(":");
    reveal_strlit("-");
    reveal_strlit("@");
    let token = field + ":"@ + value;
    assert forall|i: int| 0 <= i < token.len() implies 'a' <= #[trigger] token[i] <= 'z'
        || token[i] == '_' || token[i] == ':' by {
        if i < field.len() {
            assert(token[i] == field[i]);
        } else if i > field.len() {
            assert(token[i] == value[i - field.len() - 1]);
        }
    }
    lemma_plain_tokens(token);
    let tokens = Seq::<Seq<char>>::empty().push(token);
    assert(tokens_of(token) == Ok::<Seq<Seq<char>>, Seq<char>>(tokens));
    assert(token[0] == field[0]);
    if text::begins_with(token, "-"@) {
        assert(token.subrange(0, 1)[0] == '-');
    }
    assert(text::occurs_at(token, ":"@, field.len() as int)) by {
        assert(token.subrange(field.len() as int, field.len() as int + 1) =~= ":"@);
    }
    text::lemma_first_from(token, ":"@, 0);
    let at = field.len() as int;
    assert forall|i: int| 0 <= i < at implies !text::occurs_at(token, ":"@, i) by {
        assert(token[i] == field[i]);
        if text::occurs_at(token, ":"@, i) {
            assert(token.subrange(i, i + 1)[0] == ':');
        }
    }
    assert(text::first_at(token, ":"@) == Some(at));
    assert(token.take(at) =~= field);
    assert(token.skip(at + 1) =~= value);
    text::lemma_class_from(value, CharClass::Is(','), 0);
    let comma = text::class_from(value, CharClass::Is(','), 0);
    if comma < value.len() {
        assert(value[comma] == ',');
    }
    let values = seq![value];
    assert(text::pieces(value, CharClass::Is(',')) == values);
    if text::begins_with(value, "@"@) {
        assert(value.subrange(0, 1)[0] == '@');
    }
    assert(values.drop_last() =~= Seq::<Seq<char>>::empty());
    assert(first_keyword(values.drop_last()) is None);
    assert(first_keyword(values) is None);
    let clause = ClauseModel { negated: false, field: Some(field), values };
    assert(clause_of(token) == Ok::<ClauseModel, Seq<char>>(clause));
    assert(tokens.drop_last() =~= Seq::<Seq<char>>::empty());
    assert(clauses_of(tokens.drop_last()) == Ok::<Seq<ClauseModel>, Seq<char>>(Seq::empty()));
    assert(Seq::<ClauseModel>::empty().push(clause) =~= seq![clause]);
}

/// A word is its own lower case form.
proof fn lemma_word_lowercase(t: Seq<char>)
    requires
        is_word(t),
    ensures
        text::lowercase(t) == t,
{
    assert(text::ascii(t));
    assert(t.map_values(|c: char| text::ascii_lowercase(c)) =~= t);
}

/// A word without underscores is its own normal form.
proof fn lemma_word_normal(t: Seq<char>)
    requires
        forall|i: int| 0 <= i < t.len() ==> 'a' <= #[trigger] t[i] <= 'z',
    ensures
        normal_of(t) == t,
    decreases t.len(),
{
    if t.len() > 0 {
        let front = t.drop_last();
        assert forall|i: int| 0 <= i < front.len() implies 'a' <= #[trigger] front[i] <= 'z' by {
            assert(front[i] == t[i]);
        }
        lemma_word_normal(front);
        assert(t.last() == t[t.len() - 1]);
        assert(front + seq![t.last()] =~= t);
    } else {
        assert(t =~= Seq::<char>::empty());
    }
}

/// A word is matched by itself alone, whatever the case.
proof fn lemma_word_matched(actual: Seq<char>, word: Seq<char>, numerals: NumeralsModel)
    requires
        is_word(word),
    ensures
        value_matched(actual, word, numerals) == (text::lowercase(actual) == word),
{
    reveal_strlit(">=");
    reveal_strlit("<=");
    reveal_strlit(">");
    reveal_strlit("<");
    reveal_strlit("..");
    reveal_strlit("*");
    assert('a' <= word[0] <= 'z' || word[0] == '_');
    assert forall|p: Seq<char>| p.len() > 0 && #[trigger] text::begins_with(word, p) implies word[0]
        == p[0] by {
        assert(word.subrange(0, p.len() as int)[0] == p[0]);
    }
    assert(comparison_of(word) is None);
    text::lemma_first_from(word, ".."@, 0);
    if let Some(i) = text::first_at(word, ".."@) {
        assert(word.subrange(i, i + 2)[0] == '.');
        assert(word[i] == '.');
    }
    if text::finishes_with(word, "*"@) {
        let last = word.len() - 1;
        assert(word.subrange(last, last + 1)[0] == '*');
        assert(word[last] == '*');
    }
    lemma_word_lowercase(word);
}

/// The filter of a field that asks for the status holds exactly where the status of the
/// workflow is the word that it names.
proof fn lemma_status_selects(
    field: Seq<char>,
    word: Seq<char>,
    workflow: Workflow,
    numerals: NumeralsModel,
)
    requires
        field == "status"@ || field == "state"@ || field == "is"@,
        is_word(word),
    ensures
        filter_of(field + ":"@ + word) is Ok,
        selects(field, word, workflow, numerals) == (status_word(workflow) == word),
{
    lemma_status_texts(workflow);
    lemma_word_filter(field, word);
    lemma_word_normal(field);
    lemma_word_lowercase(status_word(workflow));
    lemma_word_matched(status_word(workflow), word, numerals);
    let clause = ClauseModel { negated: false, field: Some(field), values: seq![word] };
    let clauses = seq![clause];
    let held = value_holds(workflow, Some(field), word, numerals);
    assert(held == (status_word(workflow) == word));
    assert(clause.values[0] == word);
    assert(clause.holds_of(workflow, numerals) == held);
    assert(clauses[0] == clause);
    assert(filter_holds(clauses, workflow, numerals) == held);
}

/// The words of fields and statuses.
proof fn lemma_status_texts(workflow: Workflow)
    ensures
        forall|i: int| 0 <= i < "status"@.len() ==> 'a' <= #[trigger] "status"@[i] <= 'z',
        forall|i: int| 0 <= i < "state"@.len() ==> 'a' <= #[trigger] "state"@[i] <= 'z',
        forall|i: int| 0 <= i < "is"@.len() ==> 'a' <= #[trigger] "is"@[i] <= 'z',
        is_word("status"@) && is_word("state"@) && is_word("is"@),
        is_word("in_progress"@) && is_word("success"@) && is_word("failure"@) && is_word("other"@),
        is_word(status_word(workflow)),
        "in_progress"@.len() == 11 && "success"@.len() == 7 && "failure"@.len() == 7,
        "other"@.len() == 5 && "success"@[0] == 's' && "failure"@[0] == 'f',
        "status"@[0] == 's' && "state"@.len() == 5 && "status"@.len() == 6 && "is"@.len() == 2,
        "has"@[0] == 'h' && "no"@[0] == 'n' && "name"@[0] == 'n' && "workflow"@[0] == 'w',
        "is"@[0] == 'i' && "state"@[0] == 's',
{
    reveal_strlit("status");
    reveal_strlit("state");
    reveal_strlit("is");
    reveal_strlit("in_progress");
    reveal_strlit("success");
    reveal_strlit("failure");
    reveal_strlit("other");
    reveal_strlit("has");
    reveal_strlit("no");
    reveal_strlit("name");
    reveal_strlit("workflow");
}

/// Of the filters that name the four statuses exactly one holds of a workflow: the one of
/// `in_progress` where a run is in progress, and otherwise the one of its last run. The fields
/// `status`, `state` and `is` give the same answers.
pub proof fn law_status_filters_part_workflows(
    field: Seq<char>,
    workflow: Workflow,
    numerals: NumeralsModel,
)
    requires
        field == "status"@ || field == "state"@ || field == "is"@,
    ensures
        filter_of(field + ":in_progress"@) is Ok,
        filter_of(field + ":success"@) is Ok,
        filter_of(field + ":failure"@) is Ok,
        filter_of(field + ":other"@) is Ok,
        filter_holds(filter_of(field + ":in_progress"@)->Ok_0, workflow, numerals)
            == workflow.is_in_progress,
        filter_holds(filter_of(field + ":success"@)->Ok_0, workflow, numerals) == (
        !workflow.is_in_progress && workflow.run_status == RunStatus::Success),
        filter_holds(filter_of(field + ":failure"@)->Ok_0, workflow, numerals) == (
        !workflow.is_in_progress && workflow.run_status == RunStatus::Failure),
        filter_holds(filter_of(field + ":other"@)->Ok_0, workflow, numerals) == (
        !workflow.is_in_progress && workflow.run_status == RunStatus::Other),
{
    lemma_status_texts(workflow);
    lemma_status_selects(field, "in_progress"@, workflow, numerals);
    lemma_status_selects(field, "success"@, workflow, numerals);
    lemma_status_selects(field, "failure"@, workflow, numerals);
    lemma_status_selects(field, "other"@, workflow, numerals);
    reveal_strlit(":");
    reveal_strlit("in_progress");
    reveal_strlit("success");
    reveal_strlit("failure");
    reveal_strlit("other");
    reveal_strlit(":in_progress");
    reveal_strlit(":success");
    reveal_strlit(":failure");
    reveal_strlit(":other");
    assert(field + ":in_progress"@ =~= field + ":"@ + "in_progress"@);
    assert(field + ":success"@ =~= field + ":"@ + "success"@);
    assert(field + ":failure"@ =~= field + ":"@ + "failure"@);
    assert(field + ":other"@ =~= field + ":"@ + "other"@);
}

} // verus!
