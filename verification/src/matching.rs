//! What the clauses of a filter hold of.
use vstd::prelude::*;
use vstd::string::*;

use crate::github::{RunCounts, RunStatus, Workflow};
use crate::query::{self, ClauseModel, Number, NumeralsModel};
use crate::selecting::value_of;
use crate::text;

verus! {

/// Whether two values read as numbers of some places.
pub open spec fn read_as(
    numerals: NumeralsModel,
    a: Seq<char>,
    i: i64,
    b: Seq<char>,
    j: i64,
) -> bool {
    numerals.reading(a) == Some(Number::At(i)) && numerals.reading(b) == Some(Number::At(j))
}

proof fn lemma_begins(a: Seq<char>, b: Seq<char>)
    ensures
        text::begins_with(a + b, a),
        (a + b).skip(a.len() as int) == b,
{
    assert((a + b).subrange(0, a.len() as int) =~= a);
    assert((a + b).skip(a.len() as int) =~= b);
}

proof fn lemma_not_begins(s: Seq<char>, p: Seq<char>, i: int)
    requires
        0 <= i < p.len(),
        i < s.len() ==> s[i] != p[i],
    ensures
        !text::begins_with(s, p),
{
    if text::begins_with(s, p) {
        assert(s.subrange(0, p.len() as int)[i] == p[i]);
    }
}

/// A comparison of numbers holds where the numbers compare so.
pub proof fn law_comparisons_compare_numbers(
    actual: Seq<char>,
    bound: Seq<char>,
    i: i64,
    j: i64,
    numerals: NumeralsModel,
)
    requires
        read_as(numerals, actual, i, bound, j),
        bound.len() > 0 ==> bound[0] != '=',
    ensures
        query::value_matched(actual, ">"@ + bound, numerals) == (i > j),
        query::value_matched(actual, ">="@ + bound, numerals) == (i >= j),
        query::value_matched(actual, "<"@ + bound, numerals) == (i < j),
        query::value_matched(actual, "<="@ + bound, numerals) == (i <= j),
{
    lemma_comparisons(bound);
}

proof fn lemma_comparisons(bound: Seq<char>)
    requires
        bound.len() > 0 ==> bound[0] != '=',
    ensures
        query::comparison_of(">"@ + bound) == Some((query::Operator::Above, bound)),
        query::comparison_of(">="@ + bound) == Some((query::Operator::AtLeast, bound)),
        query::comparison_of("<"@ + bound) == Some((query::Operator::Below, bound)),
        query::comparison_of("<="@ + bound) == Some((query::Operator::AtMost, bound)),
{
    reveal_strlit(">=");
    reveal_strlit("<=");
    reveal_strlit(">");
    reveal_strlit("<");
    lemma_begins(">"@, bound);
    lemma_begins(">="@, bound);
    lemma_begins("<"@, bound);
    lemma_begins("<="@, bound);
    lemma_not_begins(">"@ + bound, ">="@, 1);
    lemma_not_begins("<"@ + bound, "<="@, 1);
    lemma_not_begins("<"@ + bound, ">="@, 0);
    lemma_not_begins("<="@ + bound, ">="@, 0);
    lemma_not_begins(">"@ + bound, "<="@, 0);
    lemma_not_begins("<"@ + bound, ">"@, 0);
}

/// A comparison of values that do not both read as numbers goes by their texts, whatever their
/// case.
pub proof fn law_comparisons_compare_texts(
    actual: Seq<char>,
    bound: Seq<char>,
    numerals: NumeralsModel,
)
    requires
        numerals.reading(actual) is None || numerals.reading(bound) is None,
        bound.len() > 0 ==> bound[0] != '=',
    ensures
        ({
            let a = text::lowercase(actual);
            let b = text::lowercase(bound);
            &&& query::value_matched(actual, ">"@ + bound, numerals) == text::text_less(b, a)
            &&& query::value_matched(actual, "<"@ + bound, numerals) == text::text_less(a, b)
            &&& query::value_matched(actual, ">="@ + bound, numerals) == !text::text_less(a, b)
            &&& query::value_matched(actual, "<="@ + bound, numerals) == !text::text_less(b, a)
        }),
{
    lemma_comparisons(bound);
    text::lemma_text_less_total(text::lowercase(actual), text::lowercase(bound));
}

/// Whether a bound of a range can stand before the two dots: it starts with no comparison, holds
/// no two dots in a row and does not end in one.
pub open spec fn is_lower_bound(bound: Seq<char>) -> bool {
    &&& bound.len() > 0
    &&& bound[0] != '<' && bound[0] != '>'
    &&& bound[bound.len() - 1] != '.'
    &&& forall|k: int| 0 <= k < bound.len() - 1 ==> !(#[trigger] bound[k] == '.' && bound[k + 1]
        == '.')
}

proof fn lemma_range_cut(low: Seq<char>, high: Seq<char>)
    requires
        is_lower_bound(low),
    ensures
        query::comparison_of(low + ".."@ + high) is None,
        text::cut_first(low + ".."@ + high, ".."@) == Some((low, high)),
{
    reveal_strlit(">=");
    reveal_strlit("<=");
    reveal_strlit(">");
    reveal_strlit("<");
    reveal_strlit("..");
    let all = low + ".."@ + high;
    assert(all[0] == low[0]);
    lemma_not_begins(all, ">="@, 0);
    lemma_not_begins(all, "<="@, 0);
    lemma_not_begins(all, ">"@, 0);
    lemma_not_begins(all, "<"@, 0);
    let at = low.len() as int;
    assert(all.subrange(at, at + 2) =~= ".."@);
    assert(text::occurs_at(all, ".."@, at));
    text::lemma_first_from(all, ".."@, 0);
    assert forall|k: int| 0 <= k < at implies !text::occurs_at(all, ".."@, k) by {
        if text::occurs_at(all, ".."@, k) {
            assert(all.subrange(k, k + 2)[0] == '.' && all.subrange(k, k + 2)[1] == '.');
            assert(all[k] == low[k]);
            if k < low.len() - 1 {
                assert(all[k + 1] == low[k + 1]);
            }
        }
    }
    assert(text::first_at(all, ".."@) == Some(at));
    assert(all.take(at) =~= low);
    assert(all.skip(at + 2) =~= high);
}

/// A range holds where the number lies within it, its bounds included; a star stands for no
/// bound.
pub proof fn law_ranges_are_inclusive(
    actual: Seq<char>,
    low: Seq<char>,
    high: Seq<char>,
    i: i64,
    j: i64,
    k: i64,
    numerals: NumeralsModel,
)
    requires
        is_lower_bound(low),
        numerals.reading(actual) == Some(Number::At(i)),
        low == "*"@ || numerals.reading(low) == Some(Number::At(j)),
        high == "*"@ || numerals.reading(high) == Some(Number::At(k)),
    ensures
        query::value_matched(actual, low + ".."@ + high, numerals) == ((low == "*"@ || j <= i) && (
        high == "*"@ || i <= k)),
{
    lemma_range_cut(low, high);
}

/// Whether a text is made of ASCII characters that mean nothing in a pattern.
pub open spec fn is_plain(t: Seq<char>) -> bool {
    t.len() > 0 && forall|k: int|
        0 <= k < t.len() ==> #[trigger] t[k] <= '\u{7f}' && t[k] != '*' && t[k] != '<' && t[k] != '>'
            && t[k] != '.'
}

proof fn lemma_plain_lower(t: Seq<char>)
    requires
        is_plain(t),
    ensures
        ({
            let lower = text::lowercase(t);
            &&& lower.len() == t.len()
            &&& forall|k: int|
                0 <= k < t.len() ==> #[trigger] lower[k] == text::ascii_lowercase(t[k]) && lower[k]
                    != '*'
        }),
{
    assert(text::ascii(t));
}

proof fn lemma_trim_plain(t: Seq<char>)
    requires
        t.len() > 0,
        forall|k: int| 0 <= k < t.len() ==> #[trigger] t[k] != '*',
    ensures
        text::trim_start_of(t, text::CharClass::Is('*')) == t,
        text::trim_end_of(t, text::CharClass::Is('*')) == t,
        text::trim_start_of("*"@ + t, text::CharClass::Is('*')) == t,
        text::trim_end_of(t + "*"@, text::CharClass::Is('*')) == t,
        text::trim_of("*"@ + t + "*"@, text::CharClass::Is('*')) == t,
{
    reveal_strlit("*");
    let star = text::CharClass::Is('*');
    assert(t[0] != '*' && t[t.len() - 1] != '*');
    assert(t.last() == t[t.len() - 1]);
    let led = "*"@ + t;
    assert(led[0] == '*');
    assert(led.skip(1) =~= t);
    assert(text::trim_start_of(led, star) == text::trim_start_of(t, star));
    let trailed = t + "*"@;
    assert(trailed.last() == '*');
    assert(trailed.drop_last() =~= t);
    assert(text::trim_end_of(trailed, star) == text::trim_end_of(t, star));
    let both = "*"@ + t + "*"@;
    assert(both[0] == '*');
    assert(both.skip(1) =~= trailed);
    assert(trailed[0] == t[0]);
    assert(text::trim_start_of(both, star) == text::trim_start_of(trailed, star));
    assert(text::trim_start_of(trailed, star) == trailed);
}

proof fn lemma_no_operator(t: Seq<char>)
    requires
        t.len() > 0,
        forall|k: int|
            0 <= k < t.len() ==> #[trigger] t[k] != '<' && t[k] != '>' && t[k] != '.',
    ensures
        query::comparison_of(t) is None,
        text::cut_first(t, ".."@) is None,
{
    reveal_strlit(">=");
    reveal_strlit("<=");
    reveal_strlit(">");
    reveal_strlit("<");
    reveal_strlit("..");
    assert(t[0] != '<' && t[0] != '>');
    lemma_not_begins(t, ">="@, 0);
    lemma_not_begins(t, "<="@, 0);
    lemma_not_begins(t, ">"@, 0);
    lemma_not_begins(t, "<"@, 0);
    text::lemma_first_from(t, ".."@, 0);
    if let Some(i) = text::first_at(t, ".."@) {
        assert(t.subrange(i, i + 2)[0] == '.');
        assert(t[i] == '.');
    }
}

/// A value without stars matches what is equal to it, whatever the case. With a star before it, it
/// matches what ends so, with a star behind it what begins so, and with both what holds it.
pub proof fn law_patterns_match(actual: Seq<char>, pattern: Seq<char>, numerals: NumeralsModel)
    requires
        is_plain(pattern),
    ensures
        ({
            let a = text::lowercase(actual);
            let p = text::lowercase(pattern);
            &&& query::value_matched(actual, pattern, numerals) == (a == p)
            &&& query::value_matched(actual, pattern + "*"@, numerals) == (a.len() >= p.len()
                && a.take(p.len() as int) == p)
            &&& query::value_matched(actual, "*"@ + pattern, numerals) == (a.len() >= p.len()
                && a.skip(a.len() - p.len()) == p)
            &&& query::value_matched(actual, "*"@ + pattern + "*"@, numerals) == exists|i: int|
                0 <= i && i + p.len() <= a.len() && #[trigger] a.subrange(i, i + p.len()) == p
        }),
{
    reveal_strlit("*");
    let a = text::lowercase(actual);
    let p = text::lowercase(pattern);
    let trailed = pattern + "*"@;
    let led = "*"@ + pattern;
    let both = "*"@ + pattern + "*"@;
    lemma_plain_lower(pattern);
    lemma_no_operator(pattern);
    assert forall|k: int| 0 <= k < trailed.len() implies #[trigger] trailed[k] != '<' && trailed[k]
        != '>' && trailed[k] != '.' by {
        if k < pattern.len() {
            assert(trailed[k] == pattern[k]);
        }
    }
    assert forall|k: int| 0 <= k < led.len() implies #[trigger] led[k] != '<' && led[k] != '>'
        && led[k] != '.' by {
        if k > 0 {
            assert(led[k] == pattern[k - 1]);
        }
    }
    assert forall|k: int| 0 <= k < both.len() implies #[trigger] both[k] != '<' && both[k] != '>'
        && both[k] != '.' by {
        if 0 < k <= pattern.len() {
            assert(both[k] == pattern[k - 1]);
        }
    }
    lemma_no_operator(trailed);
    lemma_no_operator(led);
    lemma_no_operator(both);
    assert(text::ascii(trailed)) by {
        assert forall|k: int| 0 <= k < trailed.len() implies #[trigger] trailed[k] <= '\u{7f}' by {
            if k < pattern.len() {
                assert(trailed[k] == pattern[k]);
            }
        }
    }
    assert(text::ascii(led)) by {
        assert forall|k: int| 0 <= k < led.len() implies #[trigger] led[k] <= '\u{7f}' by {
            if k > 0 {
                assert(led[k] == pattern[k - 1]);
            }
        }
    }
    assert(text::ascii(both)) by {
        assert forall|k: int| 0 <= k < both.len() implies #[trigger] both[k] <= '\u{7f}' by {
            if 0 < k <= pattern.len() {
                assert(both[k] == pattern[k - 1]);
            }
        }
    }
    assert(text::ascii(pattern));
    assert(text::lowercase(trailed) =~= p + "*"@);
    assert(text::lowercase(led) =~= "*"@ + p);
    assert(text::lowercase(both) =~= "*"@ + p + "*"@);
    lemma_trim_plain(p);
    lemma_not_begins(p, "*"@, 0);
    lemma_not_ends(p);
    assert((p + "*"@)[0] == p[0]);
    lemma_not_begins(p + "*"@, "*"@, 0);
    assert((p + "*"@).subrange(p.len() as int, p.len() as int + 1) =~= "*"@);
    lemma_begins("*"@, p);
    assert(("*"@ + p).last() == p.last());
    lemma_not_ends("*"@ + p);
    assert("*"@ + p + "*"@ =~= "*"@ + (p + "*"@));
    lemma_begins("*"@, p + "*"@);
    let whole = "*"@ + p + "*"@;
    assert(whole.subrange(whole.len() - 1, whole.len() as int) =~= "*"@);
    if a.len() >= p.len() {
        assert(a.take(p.len() as int) =~= a.subrange(0, p.len() as int));
        assert(a.skip(a.len() - p.len()) =~= a.subrange(a.len() - p.len(), a.len() as int));
    }
    if text::holds_text(a, p) {
        let i = choose|i: int| text::occurs_at(a, p, i);
        assert(a.subrange(i, i + p.len()) == p);
    }
    if exists|i: int|
        0 <= i && i + p.len() <= a.len() && #[trigger] a.subrange(i, i + p.len()) == p {
        let i = choose|i: int|
            0 <= i && i + p.len() <= a.len() && #[trigger] a.subrange(i, i + p.len()) == p;
        assert(text::occurs_at(a, p, i));
    }
}

proof fn lemma_not_ends(s: Seq<char>)
    requires
        s.len() > 0,
        s.last() != '*',
    ensures
        !text::finishes_with(s, "*"@),
{
    reveal_strlit("*");
    if text::finishes_with(s, "*"@) {
        assert(s.subrange(s.len() - 1, s.len() as int)[0] == '*');
    }
}

/// A filter holds of a workflow where all of its clauses do: adding clauses narrows it.
pub proof fn law_clauses_are_combined(
    a: Seq<ClauseModel>,
    b: Seq<ClauseModel>,
    workflow: Workflow,
    numerals: NumeralsModel,
)
    ensures
        query::filter_holds(a + b, workflow, numerals) == (query::filter_holds(
            a,
            workflow,
            numerals,
        ) && query::filter_holds(b, workflow, numerals)),
{
    let all = a + b;
    if query::filter_holds(all, workflow, numerals) {
        assert forall|i: int| 0 <= i < a.len() implies (#[trigger] a[i]).holds_of(
            workflow,
            numerals,
        ) != a[i].negated by {
            assert(all[i] == a[i]);
        }
        assert forall|i: int| 0 <= i < b.len() implies (#[trigger] b[i]).holds_of(
            workflow,
            numerals,
        ) != b[i].negated by {
            assert(all[a.len() + i] == b[i]);
        }
    }
    if query::filter_holds(a, workflow, numerals) && query::filter_holds(b, workflow, numerals) {
        assert forall|i: int| 0 <= i < all.len() implies (#[trigger] all[i]).holds_of(
            workflow,
            numerals,
        ) != all[i].negated by {
            if i < a.len() {
                assert(all[i] == a[i]);
            } else {
                assert(all[i] == b[i - a.len()]);
            }
        }
    }
}

/// A clause that is negated holds exactly where the clause does not, and one of several values
/// holds where one of them does.
pub proof fn law_clauses_negate_and_choose(
    field: Option<Seq<char>>,
    u: Seq<Seq<char>>,
    v: Seq<Seq<char>>,
    workflow: Workflow,
    numerals: NumeralsModel,
)
    ensures
        query::filter_holds(
            seq![ClauseModel { negated: true, field, values: u }],
            workflow,
            numerals,
        ) == !query::filter_holds(
            seq![ClauseModel { negated: false, field, values: u }],
            workflow,
            numerals,
        ),
        query::filter_holds(
            seq![ClauseModel { negated: false, field, values: u + v }],
            workflow,
            numerals,
        ) == (query::filter_holds(
            seq![ClauseModel { negated: false, field, values: u }],
            workflow,
            numerals,
        ) || query::filter_holds(
            seq![ClauseModel { negated: false, field, values: v }],
            workflow,
            numerals,
        )),
{
    lemma_one_clause(ClauseModel { negated: true, field, values: u }, workflow, numerals);
    lemma_one_clause(ClauseModel { negated: false, field, values: u }, workflow, numerals);
    lemma_one_clause(ClauseModel { negated: false, field, values: v }, workflow, numerals);
    lemma_one_clause(ClauseModel { negated: false, field, values: u + v }, workflow, numerals);
    let normal = ClauseModel { negated: false, field, values: u }.normal_field();
    let all = u + v;
    if query::some_value_holds(workflow, normal, u, numerals) {
        let i = choose|i: int|
            0 <= i < u.len() && query::value_holds(workflow, normal, #[trigger] u[i], numerals);
        assert(all[i] == u[i]);
    }
    if query::some_value_holds(workflow, normal, v, numerals) {
        let i = choose|i: int|
            0 <= i < v.len() && query::value_holds(workflow, normal, #[trigger] v[i], numerals);
        assert(all[u.len() + i] == v[i]);
    }
    if query::some_value_holds(workflow, normal, all, numerals) {
        let i = choose|i: int|
            0 <= i < all.len() && query::value_holds(workflow, normal, #[trigger] all[i], numerals);
        if i < u.len() {
            assert(all[i] == u[i]);
        } else {
            assert(all[i] == v[i - u.len()]);
        }
    }
}

proof fn lemma_one_clause(clause: ClauseModel, workflow: Workflow, numerals: NumeralsModel)
    ensures
        query::filter_holds(seq![clause], workflow, numerals) == (clause.holds_of(
            workflow,
            numerals,
        ) != clause.negated),
{
    let clauses = seq![clause];
    assert(clauses[0] == clause);
}

/// A clause of a field and a value holds where the workflow has the field and its value matches;
/// `has` holds of a field where its value is there and not empty, and `no` where `has` does not.
pub proof fn law_clauses_ask_fields(
    field: Seq<char>,
    value: Seq<char>,
    workflow: Workflow,
    numerals: NumeralsModel,
)
    requires
        query::normal_of(field) != "has"@,
        query::normal_of(field) != "no"@,
        query::normal_of(field) != "is"@,
    ensures
        query::filter_holds(
            seq![ClauseModel { negated: false, field: Some(field), values: seq![value] }],
            workflow,
            numerals,
        ) == (match value_of(workflow, field, numerals) {
            Some(actual) => query::value_matched(actual, value, numerals),
            None => false,
        }),
        query::value_holds(workflow, Some("has"@), value, numerals) == (match value_of(
            workflow,
            value,
            numerals,
        ) {
            Some(actual) => actual.len() > 0,
            None => false,
        }),
        query::value_holds(workflow, Some("no"@), value, numerals) == !query::value_holds(
            workflow,
            Some("has"@),
            value,
            numerals,
        ),
{
    reveal_strlit("has");
    reveal_strlit("no");
    reveal_strlit("is");
    assert("has"@[0] == 'h' && "no"@[0] == 'n' && "is"@[0] == 'i');
    let clause = ClauseModel { negated: false, field: Some(field), values: seq![value] };
    lemma_one_clause(clause, workflow, numerals);
    assert(clause.values[0] == value);
}

/// The name of a workflow is the value of the fields `name` and `workflow`.
pub proof fn law_names_are_fields(workflow: Workflow, numerals: NumeralsModel)
    ensures
        query::field_value(workflow, "name"@, numerals) == Some(workflow.name@),
        query::field_value(workflow, "workflow"@, numerals) == Some(workflow.name@),
{
}

/// A text with a star that stands for no field is matched with the whole name.
pub proof fn law_stars_ask_for_names(
    workflow: Workflow,
    pattern: Seq<char>,
    numerals: NumeralsModel,
)
    requires
        is_plain(pattern),
    ensures
        ({
            let name = text::lowercase(workflow.name@);
            let p = text::lowercase(pattern);
            &&& query::value_holds(workflow, None, pattern + "*"@, numerals) == (name.len()
                >= p.len() && name.take(p.len() as int) == p)
            &&& query::value_holds(workflow, None, "*"@ + pattern, numerals) == (name.len()
                >= p.len() && name.skip(name.len() - p.len()) == p)
        }),
{
    reveal_strlit("*");
    law_patterns_match(workflow.name@, pattern, numerals);
    let trailed = pattern + "*"@;
    let led = "*"@ + pattern;
    assert(trailed.subrange(pattern.len() as int, pattern.len() as int + 1) =~= "*"@);
    assert(text::occurs_at(trailed, "*"@, pattern.len() as int));
    assert(led.subrange(0, 1) =~= "*"@);
    assert(text::occurs_at(led, "*"@, 0));
}

/// A range of values that do not read as numbers goes by their texts, its bounds included.
pub proof fn law_text_ranges_are_inclusive(
    actual: Seq<char>,
    low: Seq<char>,
    high: Seq<char>,
    numerals: NumeralsModel,
)
    requires
        is_lower_bound(low),
        numerals.reading(actual) is None,
    ensures
        query::value_matched(actual, low + ".."@ + high, numerals) == ((low == "*"@
            || !text::text_less(text::lowercase(actual), text::lowercase(low))) && (high == "*"@
            || !text::text_less(text::lowercase(high), text::lowercase(actual)))),
{
    lemma_range_cut(low, high);
    text::lemma_text_less_total(text::lowercase(actual), text::lowercase(low));
    text::lemma_text_less_total(text::lowercase(actual), text::lowercase(high));
}

/// A value that reads as one that compares with none meets no comparison with a number.
pub proof fn law_no_number_meets_none(
    actual: Seq<char>,
    bound: Seq<char>,
    place: i64,
    numerals: NumeralsModel,
)
    requires
        numerals.reading(actual) == Some(Number::NotANumber),
        numerals.reading(bound) == Some(Number::At(place)),
        bound.len() > 0 ==> bound[0] != '=',
    ensures
        !query::value_matched(actual, ">"@ + bound, numerals),
        !query::value_matched(actual, ">="@ + bound, numerals),
        !query::value_matched(actual, "<"@ + bound, numerals),
        !query::value_matched(actual, "<="@ + bound, numerals),
{
    lemma_comparisons(bound);
}

/// The components of the counts of a period have their names, some of them two; one of another
/// name is empty.
pub proof fn law_components_have_names(
    counts: RunCounts,
    component: Seq<char>,
    numerals: NumeralsModel,
)
    ensures
        ({
            let value = query::metric_text(counts, component, numerals);
            &&& component == "pass"@ || component == "passed"@ ==> value == text::decimal(
                counts.passed as nat,
            )
            &&& component == "fail"@ || component == "failed"@ ==> value == text::decimal(
                counts.failed as nat,
            )
            &&& component == "total"@ ==> value == text::decimal(counts.total as nat)
            &&& component == "rate"@ || component == "percent"@ || component == "percentage"@
                || component.len() == 0 ==> value == numerals.rate(counts)
            &&& !(component == "pass"@ || component == "passed"@ || component == "fail"@
                || component == "failed"@ || component == "total"@ || component == "rate"@
                || component == "percent"@ || component == "percentage"@ || component.len() == 0)
                ==> value.len() == 0
        }),
{
    reveal_strlit("");
    reveal_strlit("pass");
    reveal_strlit("passed");
    reveal_strlit("fail");
    reveal_strlit("failed");
    reveal_strlit("total");
    reveal_strlit("rate");
    reveal_strlit("percent");
    reveal_strlit("percentage");
    assert("pass"@[1] == 'a' && "passed"@[1] == 'a' && "fail"@[0] == 'f' && "failed"@[0] == 'f');
    assert("total"@[0] == 't' && "rate"@[0] == 'r' && "percent"@[1] == 'e');
    assert("percentage"@[1] == 'e' && "pass"@[0] == 'p' && "passed"@[0] == 'p');
    assert("percent"@[0] == 'p' && "percentage"@[0] == 'p');
    if component.len() == 0 {
        assert(component =~= ""@);
    }
}

/// The name of a field means the same whatever stands in it that is neither a letter nor a digit,
/// and whatever the case of its letters.
pub proof fn law_field_names_are_loose(a: Seq<char>, c: char, b: Seq<char>)
    requires
        c <= '\u{7f}',
    ensures
        !('a' <= c <= 'z' || 'A' <= c <= 'Z' || '0' <= c <= '9') ==> query::normal_of(
            a.push(c) + b,
        ) == query::normal_of(a + b),
        'A' <= c <= 'Z' ==> query::normal_of(a.push(c) + b) == query::normal_of(
            a.push((c as u32 + 32) as char) + b,
        ),
    decreases b.len(),
{
    if b.len() == 0 {
        assert(a.push(c) + b =~= a.push(c));
        assert(a + b =~= a);
        assert(a.push(c).drop_last() =~= a);
        let small = (c as u32 + 32) as char;
        assert(a.push(small) + b =~= a.push(small));
        assert(a.push(small).drop_last() =~= a);
        assert(query::normal_of(a) + Seq::<char>::empty() =~= query::normal_of(a));
    } else {
        let front = b.drop_last();
        law_field_names_are_loose(a, c, front);
        let small = (c as u32 + 32) as char;
        assert((a.push(c) + b).drop_last() =~= a.push(c) + front);
        assert((a + b).drop_last() =~= a + front);
        assert((a.push(small) + b).drop_last() =~= a.push(small) + front);
        assert((a.push(c) + b).last() == b.last());
        assert((a + b).last() == b.last());
        assert((a.push(small) + b).last() == b.last());
    }
}

/// `is` asks for the status as the field of that name does, with comparisons, patterns and capitals
/// alike.
pub proof fn law_is_asks_for_status(
    workflow: Workflow,
    value: Seq<char>,
    numerals: NumeralsModel,
)
    ensures
        query::value_holds(workflow, Some("is"@), value, numerals) == query::value_holds(
            workflow,
            Some("status"@),
            value,
            numerals,
        ),
        query::value_holds(workflow, Some("status"@), value, numerals) == query::value_holds(
            workflow,
            Some("state"@),
            value,
            numerals,
        ),
        query::value_holds(workflow, Some("status"@), value, numerals) == query::value_matched(
            if workflow.is_in_progress {
                "in_progress"@
            } else {
                match workflow.run_status {
                    RunStatus::Success => "success"@,
                    RunStatus::Failure => "failure"@,
                    RunStatus::Other => "other"@,
                }
            },
            value,
            numerals,
        ),
{
    reveal_strlit("has");
    reveal_strlit("no");
    reveal_strlit("is");
    reveal_strlit("name");
    reveal_strlit("workflow");
    reveal_strlit("status");
    reveal_strlit("state");
    assert("has"@[0] == 'h' && "no"@[0] == 'n' && "is"@[0] == 'i' && "status"@[0] == 's');
    assert("state"@[0] == 's' && "name"@[0] == 'n' && "workflow"@[0] == 'w');
}

/// A field that no workflow has holds of none, whatever is asked of it.
pub proof fn law_unknown_fields_hold_of_none(
    workflow: Workflow,
    field: Seq<char>,
    value: Seq<char>,
    numerals: NumeralsModel,
)
    requires
        field.len() > 0,
        'a' <= field[0] <= 'z',
        field != "name"@ && field != "workflow"@ && field != "status"@ && field != "state"@,
        field != "has"@ && field != "no"@ && field != "is"@,
    ensures
        !query::value_holds(workflow, Some(field), value, numerals),
        query::field_value(workflow, field, numerals) is None,
{
    reveal_strlit("24h");
    reveal_strlit("7d");
    reveal_strlit("14d");
    if text::begins_with(field, "24h"@) {
        assert(field.subrange(0, 3)[0] == '2');
    }
    if text::begins_with(field, "7d"@) {
        assert(field.subrange(0, 2)[0] == '7');
    }
    if text::begins_with(field, "14d"@) {
        assert(field.subrange(0, 3)[0] == '1');
    }
}

/// A star alone matches every value. A star within a value stands for itself.
pub proof fn law_stars_stand_at_ends(
    actual: Seq<char>,
    pattern: Seq<char>,
    numerals: NumeralsModel,
)
    requires
        pattern.len() > 0,
        forall|k: int|
            0 <= k < pattern.len() ==> #[trigger] pattern[k] <= '\u{7f}' && pattern[k] != '<'
                && pattern[k] != '>' && pattern[k] != '.',
        pattern[0] != '*',
        pattern[pattern.len() - 1] != '*',
    ensures
        query::value_matched(actual, "*"@, numerals),
        query::value_matched(actual, pattern, numerals) == (text::lowercase(actual)
            == text::lowercase(pattern)),
{
    reveal_strlit("*");
    let star = "*"@;
    lemma_no_operator(star);
    assert(text::ascii(star));
    assert(text::lowercase(star) =~= star);
    assert(star.subrange(0, 1) =~= star);
    let none = Seq::<char>::empty();
    assert(star[0] == '*');
    assert(star.skip(1) =~= none);
    assert(text::trim_start_of(none, text::CharClass::Is('*')) == none);
    assert(text::trim_of(star, text::CharClass::Is('*')) =~= none);
    let lower = text::lowercase(actual);
    assert(lower.subrange(0, 0) =~= none);
    assert(text::occurs_at(lower, none, 0));
    lemma_no_operator(pattern);
    assert(text::ascii(pattern));
    let p = text::lowercase(pattern);
    assert(p[0] == text::ascii_lowercase(pattern[0]));
    assert(p[p.len() - 1] == text::ascii_lowercase(pattern[pattern.len() - 1]));
    if text::begins_with(p, star) {
        assert(p.subrange(0, 1)[0] == '*');
    }
    if text::finishes_with(p, star) {
        assert(p.subrange(p.len() - 1, p.len() as int)[0] == '*');
    }
}

} // verus!
