//! How views share the screen when they are resized or made equal.
use vstd::prelude::*;
use vstd::string::*;

use crate::layout::{self, Rect, Resized, SplitDirection, ViewLayout};
use crate::panes::{self, ResizeAmount, ResizeAxis};
use crate::text;
use crate::texts;
use crate::tui::AppModel;

verus! {

/// A resize moves the border of a split by the cells that it is told to; where a part would be
/// less than its least size, it gets that size. This holds of splits that are less than 980 cells
/// long.
pub proof fn law_resize_moves_border(
    direction: SplitDirection,
    area: Rect,
    first_size: int,
    delta: int,
    minimum: int,
    first: Rect,
    second: Rect,
)
    requires
        0 < minimum,
        2 * minimum <= layout::size_along(direction, area) < 980,
        layout::extent(direction, area) == layout::size_along(direction, area),
        layout::are_parts(
            direction,
            layout::changed_ratio(
                layout::size_along(direction, area) as int,
                first_size,
                delta,
                minimum,
            ) as u16,
            area,
            first,
            second,
        ),
    ensures
        ({
            let total = layout::size_along(direction, area);
            let size = layout::size_along(direction, first);
            &&& minimum <= first_size + delta <= total - minimum ==> size == first_size + delta
            &&& first_size + delta < minimum ==> size == minimum
            &&& first_size + delta > total - minimum ==> size == total - minimum
            &&& layout::size_along(direction, second) == total - size
        }),
{
    layout::law_resize_is_exact(direction, area, first_size, delta, minimum, first, second);
}

proof fn lemma_ratio_restored(layout: ViewLayout, way: Seq<bool>, new_ratio: u16)
    ensures
        layout::at_way(layout, way) matches Some(
            ViewLayout::Split { direction, ratio, first, second },
        ) ==> {
            &&& layout::at_way(layout::with_ratio(layout, way, new_ratio), way) == Some(
                ViewLayout::Split { direction, ratio: new_ratio, first, second },
            )
            &&& layout::with_ratio(layout::with_ratio(layout, way, new_ratio), way, ratio) == layout
        },
    decreases way.len(),
{
    if way.len() > 0 {
        if let ViewLayout::Split { first, second, .. } = layout {
            if way[0] {
                lemma_ratio_restored(*second, way.skip(1), new_ratio);
            } else {
                lemma_ratio_restored(*first, way.skip(1), new_ratio);
            }
        }
    }
}

/// A resize makes the part with the active view greater by the cells asked for, and the other less;
/// no other split changes. This holds of splits that are less than 980 cells long.
pub proof fn law_resize_grows_active_part(
    layout: ViewLayout,
    way: Seq<bool>,
    direction: SplitDirection,
    ratio: u16,
    one: ViewLayout,
    other: ViewLayout,
    area: Rect,
    sizes: (u16, u16),
    active_in_first: bool,
    delta: int,
    minimum: u16,
    first: Rect,
    second: Rect,
)
    requires
        layout::at_way(layout, way) == Some(
            ViewLayout::Split { direction, ratio, first: Box::new(one), second: Box::new(other) },
        ),
        0 < minimum,
        2 * minimum <= layout::size_along(direction, area) < 980,
        layout::extent(direction, area) == layout::size_along(direction, area),
        sizes.0 + sizes.1 == layout::size_along(direction, area),
        ({
            let after = layout::resize_at(
                layout,
                way,
                area,
                sizes.0,
                active_in_first,
                delta,
                minimum,
            ).1;
            layout::at_way(after, way) matches Some(ViewLayout::Split { ratio: new_ratio, .. })
                && layout::are_parts(direction, new_ratio, area, first, second)
        }),
    ensures
        ({
            let (result, after) = layout::resize_at(
                layout,
                way,
                area,
                sizes.0,
                active_in_first,
                delta,
                minimum,
            );
            let total = layout::size_along(direction, area);
            let before = if active_in_first {
                sizes.0
            } else {
                sizes.1
            };
            let grown = layout::size_along(
                direction,
                if active_in_first {
                    first
                } else {
                    second
                },
            );
            &&& result == Resized::Done
            &&& minimum <= before + delta <= total - minimum ==> grown == before + delta
            &&& before + delta < minimum ==> grown == minimum
            &&& before + delta > total - minimum ==> grown == total - minimum
            &&& layout::with_ratio(after, way, ratio) == layout
        }),
{
    let total = layout::size_along(direction, area);
    let change = if active_in_first {
        delta
    } else {
        -delta
    };
    let new_ratio = layout::changed_ratio(
        total as int,
        sizes.0 as int,
        change,
        minimum as int,
    ) as u16;
    lemma_ratio_restored(layout, way, new_ratio);
    law_resize_moves_border(
        direction,
        area,
        sizes.0 as int,
        change,
        minimum as int,
        first,
        second,
    );
}

/// A split that is too small for two parts of the least size stays as it is.
pub proof fn law_small_split_stays(
    layout: ViewLayout,
    way: Seq<bool>,
    direction: SplitDirection,
    area: Rect,
    first_size: u16,
    active_in_first: bool,
    delta: int,
    minimum: u16,
)
    requires
        layout::at_way(layout, way) matches Some(ViewLayout::Split { direction: along, .. }) && along
            == direction,
    ensures
        layout::size_along(direction, area) < 2 * minimum <==> layout::resize_at(
            layout,
            way,
            area,
            first_size,
            active_in_first,
            delta,
            minimum,
        ).0 == Resized::TooSmall,
        layout::size_along(direction, area) < 2 * minimum ==> layout::resize_at(
            layout,
            way,
            area,
            first_size,
            active_in_first,
            delta,
            minimum,
        ).1 == layout,
{
}

/// Whether a way leads to a split in a direction around a view.
pub open spec fn splits_around(
    layout: ViewLayout,
    way: Seq<bool>,
    active: usize,
    direction: SplitDirection,
) -> bool {
    layout::at_way(layout, way) matches Some(part) && layout::leaves(part).contains(active) && (
    part matches ViewLayout::Split { direction: along, .. } && along == direction)
}

proof fn lemma_sum_contains(a: Seq<usize>, b: Seq<usize>, x: usize)
    ensures
        (a + b).contains(x) == (a.contains(x) || b.contains(x)),
        (a + b).no_duplicates() ==> a.no_duplicates() && b.no_duplicates() && !(a.contains(x)
            && b.contains(x)),
{
    let all = a + b;
    if a.contains(x) {
        let i = choose|i: int| 0 <= i < a.len() && a[i] == x;
        assert(all[i] == x);
    }
    if b.contains(x) {
        let i = choose|i: int| 0 <= i < b.len() && b[i] == x;
        assert(all[a.len() + i] == x);
    }
    if all.no_duplicates() {
        assert forall|i: int, j: int| 0 <= i < a.len() && 0 <= j < a.len() && i != j implies a[i]
            != a[j] by {
            assert(all[i] != all[j]);
        }
        assert forall|i: int, j: int| 0 <= i < b.len() && 0 <= j < b.len() && i != j implies b[i]
            != b[j] by {
            assert(all[a.len() + i] != all[a.len() + j]);
        }
        if a.contains(x) && b.contains(x) {
            let i = choose|i: int| 0 <= i < a.len() && a[i] == x;
            let j = choose|j: int| 0 <= j < b.len() && b[j] == x;
            assert(all[i] != all[a.len() + j]);
        }
    }
}

proof fn lemma_way_contains(layout: ViewLayout, way: Seq<bool>, active: usize)
    ensures
        layout::at_way(layout, way) matches Some(part) && layout::leaves(part).contains(active)
            ==> layout::leaves(layout).contains(active),
    decreases way.len(),
{
    if way.len() > 0 {
        if let ViewLayout::Split { first, second, .. } = layout {
            lemma_sum_contains(layout::leaves(*first), layout::leaves(*second), active);
            if way[0] {
                lemma_way_contains(*second, way.skip(1), active);
            } else {
                lemma_way_contains(*first, way.skip(1), active);
            }
        }
    }
}

/// A resize changes the innermost split in its direction around the active view, and tells its
/// first part from its second by where the view lies. There is none to change exactly where no
/// such split is there.
pub proof fn law_innermost_split_is_resized(
    layout: ViewLayout,
    active: usize,
    direction: SplitDirection,
    other: Seq<bool>,
)
    requires
        layout::leaves(layout).no_duplicates(),
    ensures
        match layout::resize_way(layout, active, direction) {
            Some((way, in_first)) => {
                &&& splits_around(layout, way, active, direction)
                &&& splits_around(layout, other, active, direction) ==> other.len() <= way.len()
                &&& (layout::at_way(layout, way) matches Some(
                    ViewLayout::Split { first, second, .. },
                ) ==> layout::leaves(*first).contains(active) == in_first && layout::leaves(
                    *second,
                ).contains(active) == !in_first)
            },
            None => !splits_around(layout, other, active, direction),
        },
    decreases layout,
{
    if let ViewLayout::Split { direction: along, first, second, .. } = layout {
        let a = layout::leaves(*first);
        let b = layout::leaves(*second);
        lemma_sum_contains(a, b, active);
        let in_first = a.contains(active);
        let rest = other.skip(1);
        law_innermost_split_is_resized(*first, active, direction, rest);
        law_innermost_split_is_resized(*second, active, direction, rest);
        if other.len() > 0 {
            lemma_way_contains(*first, rest, active);
            lemma_way_contains(*second, rest, active);
        }
        if in_first || b.contains(active) {
            let inner = if in_first {
                layout::resize_way(*first, active, direction)
            } else {
                layout::resize_way(*second, active, direction)
            };
            if let Some((way, part)) = inner {
                let longer = seq![!in_first] + way;
                assert(longer.skip(1) =~= way);
                assert(longer[0] == !in_first);
            } else {
                assert(layout::at_way(layout, Seq::<bool>::empty()) == Some(layout));
            }
        }
        if other.len() == 0 && splits_around(layout, other, active, direction) {
            assert(layout::at_way(layout, other) == Some(layout));
        }
    } else {
        if other.len() == 0 {
            assert(layout::at_way(layout, other) == Some(layout));
        }
    }
}

/// The height of a view is changed by splits into parts one above the other, and its width by
/// splits into parts side by side. A view keeps five rows and twenty columns.
pub proof fn law_axes_have_least_sizes()
    ensures
        ResizeAxis::Height.direction() == SplitDirection::Horizontal,
        ResizeAxis::Width.direction() == SplitDirection::Vertical,
        ResizeAxis::Height.minimum() == 5,
        ResizeAxis::Width.minimum() == 20,
        forall|area: Rect|
            #[trigger] layout::size_along(SplitDirection::Horizontal, area) == area.height,
        forall|area: Rect|
            #[trigger] layout::size_along(SplitDirection::Vertical, area) == area.width,
{
}

/// A resize to a size brings the view to that size, and one by a difference changes it by that.
pub proof fn law_amounts_are_sizes_or_differences(n: u16, d: i16, current: u16)
    ensures
        current + panes::difference(ResizeAmount::Absolute(n), current) == n,
        panes::difference(ResizeAmount::Delta(d), current) == d,
{
}

/// How the argument of a resize is written.
pub proof fn law_resize_arguments_are_read(n: nat)
    requires
        0 < n <= i16::MAX,
    ensures
        AppModel::resize_request("height "@ + text::decimal(n)) == Ok::<
            (ResizeAxis, ResizeAmount),
            Seq<char>,
        >((ResizeAxis::Height, ResizeAmount::Absolute(n as u16))),
        AppModel::resize_request("width "@ + text::decimal(n)) == Ok::<
            (ResizeAxis, ResizeAmount),
            Seq<char>,
        >((ResizeAxis::Width, ResizeAmount::Absolute(n as u16))),
        AppModel::resize_request("height +"@ + text::decimal(n)) == Ok::<
            (ResizeAxis, ResizeAmount),
            Seq<char>,
        >((ResizeAxis::Height, ResizeAmount::Delta(n as i16))),
        AppModel::resize_request("width -"@ + text::decimal(n)) == Ok::<
            (ResizeAxis, ResizeAmount),
            Seq<char>,
        >((ResizeAxis::Width, ResizeAmount::Delta((-n) as i16))),
{
    reveal_strlit("height ");
    reveal_strlit("width ");
    reveal_strlit("height +");
    reveal_strlit("width -");
    reveal_strlit("height");
    reveal_strlit("width");
    reveal_strlit("+");
    reveal_strlit("-");
    reveal_strlit(" ");
    let digits = text::decimal(n);
    text::lemma_decimal(n);
    texts::law_written_numbers_are_read(n, u16::MAX as nat);
    texts::law_written_numbers_are_read(n, i16::MAX as nat);
    assert(text::is_digit(digits[0]));
    assert forall|k: int| 0 <= k < digits.len() implies !text::is_space(#[trigger] digits[k]) by {
        assert(text::is_digit(digits[k]));
    }
    if text::begins_with(digits, "+"@) {
        assert(digits.subrange(0, 1)[0] == '+');
    }
    if text::begins_with(digits, "-"@) {
        assert(digits.subrange(0, 1)[0] == '-');
    }
    let plus = "+"@ + digits;
    let minus = "-"@ + digits;
    assert(plus.subrange(0, 1) =~= "+"@);
    assert(plus.skip(1) =~= digits);
    assert(minus.subrange(0, 1) =~= "-"@);
    assert(minus.skip(1) =~= digits);
    assert(minus[0] == '-');
    if text::begins_with(minus, "+"@) {
        assert(minus.subrange(0, 1)[0] == '+');
    }
    assert("height"@.len() == 6 && "width"@.len() == 5);
    lemma_two_words("height"@, digits);
    lemma_two_words("width"@, digits);
    assert forall|k: int| 0 <= k < plus.len() implies !text::is_space(#[trigger] plus[k]) by {
        if k > 0 {
            assert(plus[k] == digits[k - 1]);
        }
    }
    assert forall|k: int| 0 <= k < minus.len() implies !text::is_space(#[trigger] minus[k]) by {
        if k > 0 {
            assert(minus[k] == digits[k - 1]);
        }
    }
    lemma_two_words("height"@, plus);
    lemma_two_words("width"@, minus);
    assert("height "@ + digits =~= "height"@ + " "@ + digits);
    assert("width "@ + digits =~= "width"@ + " "@ + digits);
    assert("height +"@ + digits =~= "height"@ + " "@ + plus);
    assert("width -"@ + digits =~= "width"@ + " "@ + minus);
}

proof fn lemma_two_words(a: Seq<char>, b: Seq<char>)
    requires
        texts::is_one_word(a),
        texts::is_one_word(b),
    ensures
        text::words_of(a + " "@ + b) == seq![a, b],
{
    let words = seq![a, b];
    assert(words.drop_last() =~= seq![a]);
    assert(text::joined(seq![a], " "@) == a);
    assert forall|n: int| 0 <= n < words.len() implies texts::is_one_word(#[trigger] words[n]) by {
        if n == 0 {
            assert(words[0] == a);
        } else {
            assert(words[1] == b);
        }
    }
    texts::law_words_are_split(words);
}

/// Where the views are made equal, each split divides its area by the numbers of views of its
/// parts, to half a thousandth, and no split is turned.
pub proof fn law_equal_splits_count_views(layout: ViewLayout, way: Seq<bool>)
    requires
        layout::leaves(layout).len() <= 1000,
    ensures
        match layout::at_way(layout::equalized(layout), way) {
            Some(ViewLayout::Split { direction, ratio, first, second }) => {
                let m = layout::leaves(*first).len() as int;
                let n = layout::leaves(*second).len() as int;
                &&& -(m + n) <= 2 * (ratio * (m + n) - 1000 * m) <= m + n
                &&& (layout::at_way(layout, way) matches Some(
                    ViewLayout::Split { direction: along, .. },
                ) && along == direction)
            },
            Some(ViewLayout::Pane { index }) => layout::at_way(layout, way) == Some(
                ViewLayout::Pane { index },
            ),
            None => layout::at_way(layout, way) is None,
        },
    decreases way.len(),
{
    layout::law_equalize_keeps_arrangement(layout, 0);
    if let ViewLayout::Split { first, second, .. } = layout {
        let a = layout::leaves(*first);
        let b = layout::leaves(*second);
        assert(layout::leaves(layout) == a + b);
        if way.len() > 0 {
            if way[0] {
                law_equal_splits_count_views(*second, way.skip(1));
            } else {
                law_equal_splits_count_views(*first, way.skip(1));
            }
        } else {
            lemma_some_leaf(*first);
            lemma_some_leaf(*second);
            layout::law_equalize_keeps_arrangement(*first, 0);
            layout::law_equalize_keeps_arrangement(*second, 0);
            lemma_fair(a.len() as int, b.len() as int);
        }
    }
}

proof fn lemma_some_leaf(layout: ViewLayout)
    ensures
        layout::leaves(layout).len() > 0,
    decreases layout,
{
    if let ViewLayout::Split { first, .. } = layout {
        lemma_some_leaf(*first);
    }
}

proof fn lemma_fair(m: int, n: int)
    requires
        0 < m,
        0 < n,
        m + n <= 1000,
    ensures
        0 < layout::fair_ratio(m, n) < 1000,
        -(m + n) <= 2 * (layout::fair_ratio(m, n) * (m + n) - 1000 * m) <= m + n,
{
    let total = m + n;
    let sum = m * 1000 + total / 2;
    let parts = sum / total;
    assert(parts * total <= sum < (parts + 1) * total) by (nonlinear_arith)
        requires
            total > 0,
            parts == sum / total,
    ;
    assert((parts + 1) * total == parts * total + total) by (nonlinear_arith);
    assert(parts >= 1) by (nonlinear_arith)
        requires
            total > 0,
            sum >= total,
            sum < (parts + 1) * total,
    ;
    assert(parts <= 999) by (nonlinear_arith)
        requires
            total > 0,
            parts * total <= sum,
            sum < 1000 * total,
    ;
}

/// The right part of a status bar is as wide as wanted as far as the bar goes, and the left part
/// has the rest; together they are the bar.
pub proof fn law_bar_is_parted(area: Rect, wanted: int)
    requires
        0 <= wanted,
        area.x + area.width <= u16::MAX,
    ensures
        ({
            let left = layout::bar_left(area, wanted);
            let right = layout::bar_right(area, wanted);
            &&& left.x == area.x
            &&& right.x == left.x + left.width
            &&& left.width + right.width == area.width
            &&& right.width <= wanted
            &&& right.width == wanted || left.width == 0
            &&& left.y == area.y && right.y == area.y
            &&& left.height == area.height && right.height == area.height
        }),
{
}

/// Whether an area lies within another.
pub open spec fn lies_within(inner: Rect, outer: Rect) -> bool {
    &&& outer.x <= inner.x && inner.x + inner.width <= outer.x + outer.width
    &&& outer.y <= inner.y && inner.y + inner.height <= outer.y + outer.height
}

/// Whether an area is on the screen as a whole.
pub open spec fn is_whole(area: Rect) -> bool {
    area.x + area.width <= u16::MAX && area.y + area.height <= u16::MAX
}

proof fn lemma_bounds(areas: Seq<(usize, Rect)>, outer: Rect)
    requires
        areas.len() > 0,
        forall|i: int| 0 <= i < areas.len() ==> is_whole((#[trigger] areas[i]).1),
    ensures
        forall|i: int|
            0 <= i < areas.len() ==> {
                &&& layout::least_x(areas) <= (#[trigger] areas[i]).1.x
                &&& layout::least_y(areas) <= areas[i].1.y
                &&& areas[i].1.x + areas[i].1.width <= layout::greatest_right(areas)
                &&& areas[i].1.y + areas[i].1.height <= layout::greatest_bottom(areas)
            },
        (forall|i: int| 0 <= i < areas.len() ==> lies_within((#[trigger] areas[i]).1, outer)) ==> {
            &&& outer.x <= layout::least_x(areas)
            &&& outer.y <= layout::least_y(areas)
            &&& layout::greatest_right(areas) <= outer.x + outer.width
            &&& layout::greatest_bottom(areas) <= outer.y + outer.height
        },
        0 <= layout::least_x(areas) <= layout::greatest_right(areas) <= u16::MAX,
        0 <= layout::least_y(areas) <= layout::greatest_bottom(areas) <= u16::MAX,
    decreases areas.len(),
{
    assert(is_whole(areas[0].1));
    assert(is_whole(areas[areas.len() - 1].1));
    if areas.len() > 1 {
        let front = areas.drop_last();
        assert forall|i: int| 0 <= i < front.len() implies is_whole((#[trigger] front[i]).1) by {
            assert(front[i] == areas[i]);
        }
        lemma_bounds(front, outer);
        assert forall|i: int| 0 <= i < areas.len() implies {
            &&& layout::least_x(areas) <= (#[trigger] areas[i]).1.x
            &&& layout::least_y(areas) <= areas[i].1.y
            &&& areas[i].1.x + areas[i].1.width <= layout::greatest_right(areas)
            &&& areas[i].1.y + areas[i].1.height <= layout::greatest_bottom(areas)
        } by {
            if i < front.len() {
                assert(front[i] == areas[i]);
            }
        }
        if forall|i: int| 0 <= i < areas.len() ==> lies_within((#[trigger] areas[i]).1, outer) {
            assert forall|i: int| 0 <= i < front.len() implies lies_within(
                (#[trigger] front[i]).1,
                outer,
            ) by {
                assert(front[i] == areas[i]);
            }
            assert(lies_within(areas[areas.len() - 1].1, outer));
        }
    } else if forall|i: int| 0 <= i < areas.len() ==> lies_within((#[trigger] areas[i]).1, outer) {
        assert(lies_within(areas[0].1, outer));
    }
}

/// The bounds of some areas are the least area that all of them lie in.
pub proof fn law_bounds_are_least(areas: Seq<(usize, Rect)>, outer: Rect)
    requires
        areas.len() > 0,
        forall|i: int| 0 <= i < areas.len() ==> is_whole((#[trigger] areas[i]).1),
    ensures
        layout::bounds_of(areas) matches Some(bounds) && (forall|i: int|
            0 <= i < areas.len() ==> lies_within((#[trigger] areas[i]).1, bounds)) && ((forall|i: int|
            0 <= i < areas.len() ==> lies_within((#[trigger] areas[i]).1, outer)) ==> lies_within(
            bounds,
            outer,
        )),
{
    lemma_bounds(areas, outer);
}

/// Each view of a layout has an area within that of the layout, in the order of the views.
pub proof fn law_views_have_areas(
    layout: ViewLayout,
    area: Rect,
    areas: Seq<(usize, Rect)>,
    k: int,
)
    requires
        is_whole(area),
        layout::are_areas(layout, area, areas),
        0 <= k < areas.len(),
    ensures
        areas.len() == layout::leaves(layout).len(),
        areas[k].0 == layout::leaves(layout)[k],
        lies_within(areas[k].1, area),
    decreases layout,
{
    if let ViewLayout::Split { direction, ratio, first, second } = layout {
        let count = layout::leaves(*first).len() as int;
        let (a, b) = choose|a: Rect, b: Rect|
            #![trigger layout::are_parts(direction, ratio, area, a, b)]
            {
                &&& layout::are_parts(direction, ratio, area, a, b)
                &&& layout::leaves(*first).len() <= areas.len()
                &&& layout::are_areas(*first, a, areas.take(layout::leaves(*first).len() as int))
                &&& layout::are_areas(*second, b, areas.skip(layout::leaves(*first).len() as int))
            };
        lemma_some_leaf(*first);
        lemma_some_leaf(*second);
        lemma_areas_len(*second, b, areas.skip(count));
        assert(is_whole(a) && is_whole(b));
        if k < count {
            law_views_have_areas(*first, a, areas.take(count), k);
            assert(areas.take(count)[k] == areas[k]);
        } else {
            law_views_have_areas(*second, b, areas.skip(count), k - count);
            assert(areas.skip(count)[k - count] == areas[k]);
        }
    }
}

proof fn lemma_areas_len(layout: ViewLayout, area: Rect, areas: Seq<(usize, Rect)>)
    requires
        layout::are_areas(layout, area, areas),
    ensures
        areas.len() == layout::leaves(layout).len(),
    decreases layout,
{
    if let ViewLayout::Split { direction, ratio, first, second } = layout {
        let count = layout::leaves(*first).len() as int;
        let (a, b) = choose|a: Rect, b: Rect|
            #![trigger layout::are_parts(direction, ratio, area, a, b)]
            {
                &&& layout::are_parts(direction, ratio, area, a, b)
                &&& layout::leaves(*first).len() <= areas.len()
                &&& layout::are_areas(*first, a, areas.take(layout::leaves(*first).len() as int))
                &&& layout::are_areas(*second, b, areas.skip(layout::leaves(*first).len() as int))
            };
        lemma_areas_len(*second, b, areas.skip(count));
    }
}

/// A view that is split has its area divided in the direction of the split: the first part is above
/// the second or to its left, and has as many thousandths of it as the ratio says, to about half a
/// cell.
pub proof fn law_split_divides_area(
    direction: SplitDirection,
    ratio: u16,
    area: Rect,
    first: Rect,
    second: Rect,
)
    requires
        is_whole(area),
        ratio <= 1000,
        layout::are_parts(direction, ratio, area, first, second),
    ensures
        direction == SplitDirection::Horizontal ==> first.x == second.x && first.width
            == second.width && first.y == area.y && second.y + second.height == area.y + area.height
            && first.y <= second.y,
        direction == SplitDirection::Vertical ==> first.y == second.y && first.height
            == second.height && first.x == area.x && second.x + second.width == area.x + area.width
            && first.x <= second.x,
        ({
            let size = layout::size_along(direction, first);
            let total = layout::size_along(direction, area);
            -51_000 <= 100 * (1000 * size - ratio * total) <= 51_000
        }),
{
}

proof fn lemma_area_of(areas: Seq<(usize, Rect)>, place: usize, k: int)
    requires
        0 <= k < areas.len(),
        areas[k].0 == place,
        forall|j: int| 0 <= j < k ==> (#[trigger] areas[j]).0 != place,
    ensures
        layout::area_of(areas, place) == Some(areas[k].1),
    decreases areas.len(),
{
    let front = areas.drop_last();
    if k < front.len() {
        assert(front[k] == areas[k]);
        assert forall|j: int| 0 <= j < k implies (#[trigger] front[j]).0 != place by {
            assert(front[j] == areas[j]);
        }
        lemma_area_of(front, place, k);
    } else {
        assert forall|j: int| 0 <= j < front.len() implies (#[trigger] front[j]).0 != place by {
            assert(front[j] == areas[j]);
        }
        lemma_no_area(front, place);
    }
}

proof fn lemma_no_area(areas: Seq<(usize, Rect)>, place: usize)
    requires
        forall|j: int| 0 <= j < areas.len() ==> (#[trigger] areas[j]).0 != place,
    ensures
        layout::area_of(areas, place) is None,
    decreases areas.len(),
{
    if areas.len() > 0 {
        let front = areas.drop_last();
        assert forall|j: int| 0 <= j < front.len() implies (#[trigger] front[j]).0 != place by {
            assert(front[j] == areas[j]);
        }
        lemma_no_area(front, place);
        assert(areas[areas.len() - 1].0 != place);
    }
}

/// The area of a view is its first one among those given, and there is none exactly where no area
/// is that of the view.
pub proof fn law_area_is_of_view(areas: Seq<(usize, Rect)>, place: usize, k: int)
    ensures
        0 <= k < areas.len() && areas[k].0 == place && (forall|j: int|
            0 <= j < k ==> (#[trigger] areas[j]).0 != place) ==> layout::area_of(areas, place)
            == Some(areas[k].1),
        (forall|j: int| 0 <= j < areas.len() ==> (#[trigger] areas[j]).0 != place)
            ==> layout::area_of(areas, place) is None,
{
    if 0 <= k < areas.len() && areas[k].0 == place && (forall|j: int|
        0 <= j < k ==> (#[trigger] areas[j]).0 != place) {
        lemma_area_of(areas, place, k);
    }
    if forall|j: int| 0 <= j < areas.len() ==> (#[trigger] areas[j]).0 != place {
        lemma_no_area(areas, place);
    }
}

/// A resize by or to nothing, one of another dimension, one without an amount and one with more
/// than that is refused.
pub proof fn law_bad_resizes_are_refused(dimension: Seq<char>, amount: Seq<char>, more: Seq<char>)
    requires
        texts::is_one_word(dimension),
        texts::is_one_word(amount),
        texts::is_one_word(more),
    ensures
        AppModel::resize_request(dimension) is Err,
        dimension != "height"@ && dimension != "width"@ ==> AppModel::resize_request(
            dimension + " "@ + amount,
        ) is Err,
        AppModel::resize_request(dimension + " "@ + (amount + " "@ + more)) is Err,
        AppModel::resize_request("height 0"@) is Err,
{
    reveal_strlit("height 0");
    reveal_strlit("height");
    reveal_strlit("0");
    reveal_strlit(" ");
    reveal_strlit("+");
    reveal_strlit("-");
    let one = seq![dimension];
    assert(text::joined(one, " "@) == dimension);
    assert forall|n: int| 0 <= n < one.len() implies texts::is_one_word(#[trigger] one[n]) by {
        assert(one[0] == dimension);
    }
    texts::law_words_are_split(one);
    lemma_two_words(dimension, amount);
    let three = seq![dimension, amount, more];
    assert(three.drop_last() =~= seq![dimension, amount]);
    assert(seq![dimension, amount].drop_last() =~= one);
    assert(text::joined(seq![dimension, amount], " "@) == dimension + " "@ + amount);
    assert(text::joined(three, " "@) =~= dimension + " "@ + (amount + " "@ + more));
    assert forall|n: int| 0 <= n < three.len() implies texts::is_one_word(#[trigger] three[n]) by {
        if n == 0 {
            assert(three[0] == dimension);
        } else if n == 1 {
            assert(three[1] == amount);
        } else {
            assert(three[2] == more);
        }
    }
    texts::law_words_are_split(three);
    assert("height 0"@ =~= "height"@ + " "@ + "0"@);
    lemma_two_words("height"@, "0"@);
    texts::law_numbers_are_decimal(0, 0);
    texts::law_written_numbers_are_read(0, u16::MAX as nat);
    reveal_strlit("0123456789");
    assert("0"@ =~= text::decimal(0));
    if text::begins_with("0"@, "+"@) {
        assert("0"@.subrange(0, 1)[0] == '+');
    }
    if text::begins_with("0"@, "-"@) {
        assert("0"@.subrange(0, 1)[0] == '-');
    }
}

} // verus!
