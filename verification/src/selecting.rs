//! What filters and sorts select, by the values of the workflows.
use vstd::prelude::*;
use vstd::string::*;

use crate::github::{RunCounts, Workflow};
use crate::query::{
    self, ClauseModel, Number, NumeralsModel, Order, SortModel, Sorting,
};
use crate::text;

verus! {

/// The value of a field of a workflow, by the name that a user writes.
pub open spec fn value_of(workflow: Workflow, field: Seq<char>, numerals: NumeralsModel) -> Option<
    Seq<char>,
> {
    query::field_value(workflow, query::normal_of(field), numerals)
}

proof fn lemma_normal_sum(a: Seq<char>, b: Seq<char>)
    ensures
        query::normal_of(a + b) == query::normal_of(a) + query::normal_of(b),
    decreases b.len(),
{
    if b.len() == 0 {
        assert(a + b =~= a);
        assert(query::normal_of(a) + Seq::<char>::empty() =~= query::normal_of(a));
    } else {
        lemma_normal_sum(a, b.drop_last());
        assert((a + b).drop_last() =~= a + b.drop_last());
        assert((a + b).last() == b.last());
        assert(query::normal_of(a + b) =~= query::normal_of(a) + query::normal_of(b));
    }
}

proof fn lemma_normal_plain(t: Seq<char>)
    requires
        forall|i: int|
            0 <= i < t.len() ==> 'a' <= #[trigger] t[i] <= 'z' || '0' <= t[i] <= '9',
    ensures
        query::normal_of(t) == t,
    decreases t.len(),
{
    if t.len() > 0 {
        let front = t.drop_last();
        assert forall|i: int| 0 <= i < front.len() implies 'a' <= #[trigger] front[i] <= 'z' || '0'
            <= front[i] <= '9' by {
            assert(front[i] == t[i]);
        }
        lemma_normal_plain(front);
        assert(t.last() == t[t.len() - 1]);
        assert(front + seq![t.last()] =~= t);
    } else {
        assert(t =~= Seq::<char>::empty());
    }
}

proof fn lemma_normal_dotted(period: Seq<char>, component: Seq<char>)
    requires
        forall|i: int|
            0 <= i < period.len() ==> 'a' <= #[trigger] period[i] <= 'z' || '0' <= period[i]
                <= '9',
        forall|i: int| 0 <= i < component.len() ==> 'a' <= #[trigger] component[i] <= 'z',
    ensures
        query::normal_of(period + "."@ + component) == period + component,
        query::normal_of(period) == period,
{
    reveal_strlit(".");
    lemma_normal_plain(period);
    lemma_normal_plain(component);
    lemma_normal_sum(period + "."@, component);
    lemma_normal_sum(period, "."@);
    assert("."@.drop_last() =~= Seq::<char>::empty());
    assert("."@.last() == '.');
    assert(query::normal_of("."@.drop_last()) =~= Seq::<char>::empty());
    assert(query::normal_of("."@) =~= Seq::<char>::empty());
    assert(period + Seq::<char>::empty() =~= period);
}

/// Whether the fields of a period are the counts of that period.
pub open spec fn fields_are_counts(
    workflow: Workflow,
    period: Seq<char>,
    counts: RunCounts,
    numerals: NumeralsModel,
) -> bool {
    &&& value_of(workflow, period + ".pass"@, numerals) == Some(text::decimal(counts.passed as nat))
    &&& value_of(workflow, period + ".fail"@, numerals) == Some(text::decimal(counts.failed as nat))
    &&& value_of(workflow, period + ".total"@, numerals) == Some(text::decimal(counts.total as nat))
    &&& value_of(workflow, period + ".rate"@, numerals) == Some(numerals.rate(counts))
    &&& value_of(workflow, period, numerals) == Some(numerals.rate(counts))
}

/// Each field that names a period is a count of that very period of the workflow, written in
/// decimal digits, or its pass rate.
pub proof fn law_fields_name_counts(workflow: Workflow, numerals: NumeralsModel)
    ensures
        fields_are_counts(workflow, "24h"@, workflow.run_metrics.last_24_hours, numerals),
        fields_are_counts(workflow, "7d"@, workflow.run_metrics.last_7_days, numerals),
        fields_are_counts(workflow, "14d"@, workflow.run_metrics.last_14_days, numerals),
{
    lemma_component_texts();
    reveal_strlit("24h");
    reveal_strlit("7d");
    reveal_strlit("14d");
    lemma_fields_of(workflow, "24h"@, workflow.run_metrics.last_24_hours, numerals);
    lemma_fields_of(workflow, "7d"@, workflow.run_metrics.last_7_days, numerals);
    lemma_fields_of(workflow, "14d"@, workflow.run_metrics.last_14_days, numerals);
}

proof fn lemma_component_texts()
    ensures
        "pass"@ != "fail"@ && "pass"@ != "failed"@ && "pass"@ != "total"@ && "pass"@ != "rate"@,
        "fail"@ != "passed"@ && "fail"@ != "total"@ && "fail"@ != "rate"@,
        "total"@ != "passed"@ && "total"@ != "failed"@ && "rate"@ != "passed"@,
        "rate"@ != "failed"@ && "rate"@ != "total"@,
        ""@.len() == 0,
        "pass"@.len() == 4 && "fail"@.len() == 4 && "rate"@.len() == 4 && "total"@.len() == 5,
        "passed"@.len() == 6 && "failed"@.len() == 6,
        ".pass"@ == "."@ + "pass"@,
        ".fail"@ == "."@ + "fail"@,
        ".total"@ == "."@ + "total"@,
        ".rate"@ == "."@ + "rate"@,
        forall|i: int| 0 <= i < "pass"@.len() ==> 'a' <= #[trigger] "pass"@[i] <= 'z',
        forall|i: int| 0 <= i < "fail"@.len() ==> 'a' <= #[trigger] "fail"@[i] <= 'z',
        forall|i: int| 0 <= i < "total"@.len() ==> 'a' <= #[trigger] "total"@[i] <= 'z',
        forall|i: int| 0 <= i < "rate"@.len() ==> 'a' <= #[trigger] "rate"@[i] <= 'z',
{
    reveal_strlit("pass");
    reveal_strlit("passed");
    reveal_strlit("fail");
    reveal_strlit("failed");
    reveal_strlit("total");
    reveal_strlit("rate");
    reveal_strlit("");
    reveal_strlit(".");
    reveal_strlit(".pass");
    reveal_strlit(".fail");
    reveal_strlit(".total");
    reveal_strlit(".rate");
    assert("pass"@[0] == 'p' && "fail"@[0] == 'f' && "total"@[0] == 't' && "rate"@[0] == 'r');
    assert("passed"@[0] == 'p' && "failed"@[0] == 'f');
    assert(".pass"@ =~= "."@ + "pass"@);
    assert(".fail"@ =~= "."@ + "fail"@);
    assert(".total"@ =~= "."@ + "total"@);
    assert(".rate"@ =~= "."@ + "rate"@);
}

proof fn lemma_fields_of(
    workflow: Workflow,
    period: Seq<char>,
    counts: RunCounts,
    numerals: NumeralsModel,
)
    requires
        (period == "24h"@ && counts == workflow.run_metrics.last_24_hours) || (period == "7d"@
            && counts == workflow.run_metrics.last_7_days) || (period == "14d"@ && counts
            == workflow.run_metrics.last_14_days),
    ensures
        fields_are_counts(workflow, period, counts, numerals),
{
    reveal_strlit("24h");
    reveal_strlit("7d");
    reveal_strlit("14d");
    lemma_component_texts();
    lemma_normal_dotted(period, "pass"@);
    lemma_normal_dotted(period, "fail"@);
    lemma_normal_dotted(period, "total"@);
    lemma_normal_dotted(period, "rate"@);
    assert(period + ".pass"@ =~= period + "."@ + "pass"@);
    assert(period + ".fail"@ =~= period + "."@ + "fail"@);
    assert(period + ".total"@ =~= period + "."@ + "total"@);
    assert(period + ".rate"@ =~= period + "."@ + "rate"@);
    lemma_field_of(workflow, period, "pass"@, counts, numerals);
    lemma_field_of(workflow, period, "fail"@, counts, numerals);
    lemma_field_of(workflow, period, "total"@, counts, numerals);
    lemma_field_of(workflow, period, "rate"@, counts, numerals);
    lemma_field_of(workflow, period, ""@, counts, numerals);
    assert(period + ""@ =~= period);
}

proof fn lemma_field_of(
    workflow: Workflow,
    period: Seq<char>,
    component: Seq<char>,
    counts: RunCounts,
    numerals: NumeralsModel,
)
    requires
        (period == "24h"@ && counts == workflow.run_metrics.last_24_hours) || (period == "7d"@
            && counts == workflow.run_metrics.last_7_days) || (period == "14d"@ && counts
            == workflow.run_metrics.last_14_days),
    ensures
        query::field_value(workflow, period + component, numerals) == Some(
            query::metric_text(counts, component, numerals),
        ),
{
    reveal_strlit("24h");
    reveal_strlit("7d");
    reveal_strlit("14d");
    reveal_strlit("name");
    reveal_strlit("workflow");
    reveal_strlit("status");
    reveal_strlit("state");
    let field = period + component;
    assert(field[0] == period[0]);
    assert("name"@[0] == 'n' && "workflow"@[0] == 'w' && "status"@[0] == 's' && "state"@[0] == 's');
    assert(field.subrange(0, period.len() as int) =~= period);
    assert(field.skip(period.len() as int) =~= component);
    if text::begins_with(field, "24h"@) {
        assert(field.subrange(0, 3)[0] == '2');
    }
    if text::begins_with(field, "7d"@) {
        assert(field.subrange(0, 2)[0] == '7');
    }
}

/// A field that names one period does not depend on the others: workflows that agree on the
/// counts of the period have the same value of it.
pub proof fn law_periods_are_apart(
    a: Workflow,
    b: Workflow,
    component: Seq<char>,
    numerals: NumeralsModel,
)
    ensures
        a.run_metrics.last_24_hours == b.run_metrics.last_24_hours ==> query::field_value(
            a,
            "24h"@ + component,
            numerals,
        ) == query::field_value(b, "24h"@ + component, numerals),
        a.run_metrics.last_7_days == b.run_metrics.last_7_days ==> query::field_value(
            a,
            "7d"@ + component,
            numerals,
        ) == query::field_value(b, "7d"@ + component, numerals),
        a.run_metrics.last_14_days == b.run_metrics.last_14_days ==> query::field_value(
            a,
            "14d"@ + component,
            numerals,
        ) == query::field_value(b, "14d"@ + component, numerals),
{
    lemma_field_of(a, "24h"@, component, a.run_metrics.last_24_hours, numerals);
    lemma_field_of(b, "24h"@, component, b.run_metrics.last_24_hours, numerals);
    lemma_field_of(a, "7d"@, component, a.run_metrics.last_7_days, numerals);
    lemma_field_of(b, "7d"@, component, b.run_metrics.last_7_days, numerals);
    lemma_field_of(a, "14d"@, component, a.run_metrics.last_14_days, numerals);
    lemma_field_of(b, "14d"@, component, b.run_metrics.last_14_days, numerals);
}

/// Whether a workflow has a value of a field: the field is there, and its text is not empty.
pub open spec fn has_value(workflow: Workflow, field: Seq<char>, numerals: NumeralsModel) -> bool {
    match value_of(workflow, field, numerals) {
        Some(value) => value.len() > 0,
        None => false,
    }
}

/// The place of the number that the value of a field reads as.
pub open spec fn place_of(workflow: Workflow, field: Seq<char>, numerals: NumeralsModel) -> Option<
    i64,
> {
    match value_of(workflow, field, numerals) {
        Some(value) => match numerals.reading(value) {
            Some(Number::At(place)) => Some(place),
            _ => None,
        },
        None => None,
    }
}

/// Sorting workflows whose values are numbers brings the numbers into order, ascending or
/// descending as asked for, and puts the workflows without a value behind all others. No
/// workflow is lost or added.
pub proof fn law_sort_orders_numbers(
    workflows: Seq<Workflow>,
    sort: SortModel,
    numerals: NumeralsModel,
    i: int,
    j: int,
)
    requires
        forall|w: Workflow|
            workflows.contains(w) && #[trigger] has_value(w, sort.field, numerals) ==> place_of(
                w,
                sort.field,
                numerals,
            ) is Some,
        0 <= i < j < query::selection(workflows, None, Some(sort), numerals).len(),
    ensures
        ({
            let list = query::selection(workflows, None, Some(sort), numerals);
            &&& list.to_multiset() == workflows.to_multiset()
            &&& has_value(list[j], sort.field, numerals) ==> has_value(
                list[i],
                sort.field,
                numerals,
            )
            &&& has_value(list[j], sort.field, numerals) ==> {
                let first = place_of(list[i], sort.field, numerals)->0;
                let second = place_of(list[j], sort.field, numerals)->0;
                if sort.descending {
                    first >= second
                } else {
                    first <= second
                }
            }
        }),
{
    let sorting = Sorting {
        field: query::normal_of(sort.field),
        descending: sort.descending,
        numerals,
    };
    lemma_all_kept(workflows, numerals);
    let list = sorting.sorted(workflows);
    query::law_sort_permutes(sorting, workflows);
    assert forall|w: Workflow|
        #![trigger sorting.key(w)]
        workflows.contains(w) && sorting.key(w) is Some implies sorting.key(w)->0.number matches Some(
        Number::At(_),
    ) by {
        assert(has_value(w, sort.field, numerals));
    }
    query::law_values_of_one_kind_are_consistent(sorting, workflows);
    query::law_sort_orders_and_is_stable(sorting, workflows);
    lemma_members_stay(list, workflows, i);
    lemma_members_stay(list, workflows, j);
    assert(sorting.order(list[i], list[j]) != Order::Greater);
    reveal(Sorting::order);
    assert(has_value(list[i], sort.field, numerals) == (sorting.key(list[i]) is Some));
    assert(has_value(list[j], sort.field, numerals) == (sorting.key(list[j]) is Some));
}

proof fn lemma_all_kept(workflows: Seq<Workflow>, numerals: NumeralsModel)
    ensures
        workflows.filter(|w: Workflow| query::passes(None, w, numerals)) == workflows,
    decreases workflows.len(),
{
    reveal(Seq::filter);
    if workflows.len() > 0 {
        lemma_all_kept(workflows.drop_last(), numerals);
        assert(workflows.drop_last().push(workflows.last()) =~= workflows);
    } else {
        assert(workflows.filter(|w: Workflow| query::passes(None, w, numerals)) =~= workflows);
    }
}

proof fn lemma_members_stay(list: Seq<Workflow>, other: Seq<Workflow>, i: int)
    requires
        list.to_multiset() == other.to_multiset(),
        0 <= i < list.len(),
    ensures
        other.contains(list[i]),
{
    broadcast use vstd::seq_lib::group_to_multiset_ensures;

    assert(list.to_multiset().contains(list[i]));
    assert(other.to_multiset().contains(list[i]));
}

/// Sorting workflows whose values do not read as numbers brings their texts into order, whatever
/// their case.
pub proof fn law_sort_orders_texts(
    workflows: Seq<Workflow>,
    sort: SortModel,
    numerals: NumeralsModel,
    i: int,
    j: int,
)
    requires
        forall|w: Workflow|
            workflows.contains(w) && #[trigger] has_value(w, sort.field, numerals)
                ==> numerals.reading(value_of(w, sort.field, numerals)->0) is None,
        0 <= i < j < query::selection(workflows, None, Some(sort), numerals).len(),
    ensures
        ({
            let list = query::selection(workflows, None, Some(sort), numerals);
            let first = text::lowercase(value_of(list[i], sort.field, numerals)->0);
            let second = text::lowercase(value_of(list[j], sort.field, numerals)->0);
            &&& has_value(list[j], sort.field, numerals) ==> has_value(
                list[i],
                sort.field,
                numerals,
            )
            &&& has_value(list[j], sort.field, numerals) ==> if sort.descending {
                !text::text_less(first, second)
            } else {
                !text::text_less(second, first)
            }
        }),
{
    let sorting = Sorting {
        field: query::normal_of(sort.field),
        descending: sort.descending,
        numerals,
    };
    lemma_all_kept(workflows, numerals);
    let list = sorting.sorted(workflows);
    query::law_sort_permutes(sorting, workflows);
    assert forall|w: Workflow|
        #![trigger sorting.key(w)]
        workflows.contains(w) && sorting.key(w) is Some implies sorting.key(w)->0.number is None by {
        assert(has_value(w, sort.field, numerals));
    }
    query::law_values_of_one_kind_are_consistent(sorting, workflows);
    query::law_sort_orders_and_is_stable(sorting, workflows);
    lemma_members_stay(list, workflows, i);
    lemma_members_stay(list, workflows, j);
    assert(sorting.order(list[i], list[j]) != Order::Greater);
    reveal(Sorting::order);
    assert(has_value(list[i], sort.field, numerals) == (sorting.key(list[i]) is Some));
    assert(has_value(list[j], sort.field, numerals) == (sorting.key(list[j]) is Some));
    if has_value(list[j], sort.field, numerals) {
        let first = text::lowercase(value_of(list[i], sort.field, numerals)->0);
        let second = text::lowercase(value_of(list[j], sort.field, numerals)->0);
        text::lemma_text_less_total(first, second);
    }
}

/// Workflows of one value of the sorted field keep their order.
pub proof fn law_sort_keeps_equal_in_place(
    workflows: Seq<Workflow>,
    sort: SortModel,
    numerals: NumeralsModel,
    of: Workflow,
)
    requires
        (forall|w: Workflow|
            workflows.contains(w) && #[trigger] has_value(w, sort.field, numerals) ==> place_of(
                w,
                sort.field,
                numerals,
            ) is Some),
        workflows.contains(of),
        has_value(of, sort.field, numerals),
    ensures
        query::selection(workflows, None, Some(sort), numerals).filter(
            |w: Workflow|
                has_value(w, sort.field, numerals) && place_of(w, sort.field, numerals) == place_of(
                    of,
                    sort.field,
                    numerals,
                ),
        ) == workflows.filter(
            |w: Workflow|
                has_value(w, sort.field, numerals) && place_of(w, sort.field, numerals) == place_of(
                    of,
                    sort.field,
                    numerals,
                ),
        ),
{
    let sorting = Sorting {
        field: query::normal_of(sort.field),
        descending: sort.descending,
        numerals,
    };
    lemma_all_kept(workflows, numerals);
    let list = sorting.sorted(workflows);
    query::law_sort_permutes(sorting, workflows);
    assert forall|w: Workflow|
        #![trigger sorting.key(w)]
        workflows.contains(w) && sorting.key(w) is Some implies sorting.key(w)->0.number matches Some(
        Number::At(_),
    ) by {
        assert(has_value(w, sort.field, numerals));
    }
    query::law_values_of_one_kind_are_consistent(sorting, workflows);
    query::law_sort_orders_and_is_stable(sorting, workflows);
    assert(sorting.peers(list, of) == sorting.peers(workflows, of));
    let p = |w: Workflow|
        has_value(w, sort.field, numerals) && place_of(w, sort.field, numerals) == place_of(
            of,
            sort.field,
            numerals,
        );
    let q = |w: Workflow| sorting.order(w, of) == Order::Equal;
    assert forall|w: Workflow| workflows.contains(w) implies #[trigger] p(w) == q(w) by {
        reveal(Sorting::order);
        assert(has_value(w, sort.field, numerals) == (sorting.key(w) is Some));
        assert(has_value(of, sort.field, numerals) == (sorting.key(of) is Some));
    }
    assert forall|k: int| 0 <= k < list.len() implies workflows.contains(#[trigger] list[k]) by {
        lemma_members_stay(list, workflows, k);
    }
    lemma_filters_agree(workflows, workflows, p, q);
    lemma_filters_agree(list, workflows, p, q);
}

proof fn lemma_filters_agree(
    list: Seq<Workflow>,
    within: Seq<Workflow>,
    p: spec_fn(Workflow) -> bool,
    q: spec_fn(Workflow) -> bool,
)
    requires
        forall|k: int| 0 <= k < list.len() ==> within.contains(#[trigger] list[k]),
        forall|w: Workflow| within.contains(w) ==> #[trigger] p(w) == q(w),
    ensures
        list.filter(p) == list.filter(q),
    decreases list.len(),
{
    reveal(Seq::filter);
    if list.len() > 0 {
        let front = list.drop_last();
        assert forall|k: int| 0 <= k < front.len() implies within.contains(#[trigger] front[k]) by {
            assert(front[k] == list[k]);
        }
        lemma_filters_agree(front, within, p, q);
        assert(within.contains(list[list.len() - 1]));
        assert(p(list.last()) == q(list.last()));
    }
}

/// A selection without a sort holds the workflows that the filter holds of, all of them, in
/// their order; a sort changes the order alone.
pub proof fn law_selection_is_by_filter(
    workflows: Seq<Workflow>,
    filter: Seq<ClauseModel>,
    sort: SortModel,
    numerals: NumeralsModel,
)
    ensures
        query::selection(workflows, Some(filter), None, numerals) == workflows.filter(
            |w: Workflow| query::filter_holds(filter, w, numerals),
        ),
        query::selection(workflows, Some(filter), Some(sort), numerals).to_multiset()
            == query::selection(workflows, Some(filter), None, numerals).to_multiset(),
{
    let p = |w: Workflow| query::passes(Some(filter), w, numerals);
    let q = |w: Workflow| query::filter_holds(filter, w, numerals);
    assert(p =~= q);
    query::law_sort_permutes(
        Sorting { field: query::normal_of(sort.field), descending: sort.descending, numerals },
        workflows.filter(p),
    );
}

} // verus!
