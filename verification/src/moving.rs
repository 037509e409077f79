//! Where the focus and the selection move.
use vstd::prelude::*;

use crate::layout::{self, FocusDirection, Rect};
use crate::tui::AppModel;

verus! {

/// The column in the middle of an area.
pub open spec fn middle_column(area: Rect) -> int {
    let middle = area.x + area.width / 2;
    if middle < u16::MAX {
        middle
    } else {
        u16::MAX as int
    }
}

/// The row in the middle of an area.
pub open spec fn middle_row(area: Rect) -> int {
    let middle = area.y + area.height / 2;
    if middle < u16::MAX {
        middle
    } else {
        u16::MAX as int
    }
}

/// How many cells the middle of one area lies from that of another in a direction; a negative
/// number where it lies the other way.
pub open spec fn cells_ahead(from: Rect, to: Rect, direction: FocusDirection) -> int {
    match direction {
        FocusDirection::Left => middle_column(from) - middle_column(to),
        FocusDirection::Right => middle_column(to) - middle_column(from),
        FocusDirection::Up => middle_row(from) - middle_row(to),
        FocusDirection::Down => middle_row(to) - middle_row(from),
    }
}

/// How many cells the middle of one area lies from that of another across a direction, to either
/// side.
pub open spec fn cells_aside(from: Rect, to: Rect, direction: FocusDirection) -> int {
    let offset = match direction {
        FocusDirection::Left | FocusDirection::Right => middle_row(to) - middle_row(from),
        FocusDirection::Up | FocusDirection::Down => middle_column(to) - middle_column(from),
    };
    if offset < 0 {
        -offset
    } else {
        offset
    }
}

proof fn lemma_nearest(
    areas: Seq<(usize, Rect)>,
    active: usize,
    from: Rect,
    direction: FocusDirection,
)
    ensures
        match layout::nearest_view(areas, active, from, direction) {
            Some((view, score)) => {
                &&& view != active
                &&& exists|k: int|
                    0 <= k < areas.len() && (#[trigger] areas[k]).0 == view && layout::focus_score(
                        from,
                        areas[k].1,
                        direction,
                    ) == Some(score) && forall|m: int|
                        0 <= m < areas.len() && (#[trigger] areas[m]).0 != active ==> match layout::focus_score(
                            from,
                            areas[m].1,
                            direction,
                        ) {
                            Some(other) => score <= other && (m < k ==> score < other),
                            None => true,
                        }
            },
            None => forall|m: int|
                0 <= m < areas.len() && (#[trigger] areas[m]).0 != active ==> layout::focus_score(
                    from,
                    areas[m].1,
                    direction,
                ) is None,
        },
    decreases areas.len(),
{
    if areas.len() > 0 {
        let front = areas.drop_last();
        lemma_nearest(front, active, from, direction);
        let last = areas.len() - 1;
        assert forall|m: int| 0 <= m < front.len() implies areas[m] == #[trigger] front[m] by {}
        match layout::nearest_view(areas, active, from, direction) {
            Some((view, score)) => {
                let k = if layout::nearest_view(front, active, from, direction) == Some(
                    (view, score),
                ) {
                    choose|k: int|
                        0 <= k < front.len() && (#[trigger] front[k]).0 == view
                            && layout::focus_score(from, front[k].1, direction) == Some(score)
                            && forall|m: int|
                            0 <= m < front.len() && (#[trigger] front[m]).0 != active ==> match layout::focus_score(
                                from,
                                front[m].1,
                                direction,
                            ) {
                                Some(other) => score <= other && (m < k ==> score < other),
                                None => true,
                            }
                } else {
                    last
                };
                assert(areas[k].0 == view);
                assert forall|m: int|
                    0 <= m < areas.len() && (#[trigger] areas[m]).0 != active implies match layout::focus_score(
                    from,
                    areas[m].1,
                    direction,
                ) {
                    Some(other) => score <= other && (m < k ==> score < other),
                    None => true,
                } by {
                    if m < last {
                        assert(front[m] == areas[m]);
                    }
                }
            },
            None => {
                assert forall|m: int|
                    0 <= m < areas.len() && (#[trigger] areas[m]).0 != active implies layout::focus_score(
                    from,
                    areas[m].1,
                    direction,
                ) is None by {
                    if m < last {
                        assert(front[m] == areas[m]);
                    }
                }
            },
        }
    }
}

/// Whether an area lies in a direction, and no other area but that of the active view lies nearer
/// in it: nearer along it, or equally near along it and nearer to the side. Areas that lie ten
/// thousand cells or more to the side are left out.
pub open spec fn is_nearest(
    areas: Seq<(usize, Rect)>,
    active: usize,
    from: Rect,
    direction: FocusDirection,
    area: Rect,
) -> bool {
    &&& cells_ahead(from, area, direction) > 0
    &&& forall|m: int|
        0 <= m < areas.len() && (#[trigger] areas[m]).0 != active ==> !lies_nearer(
            from,
            areas[m].1,
            area,
            direction,
        )
}

/// Whether an area lies in a direction, less than ten thousand cells to the side, and nearer than
/// another.
pub open spec fn lies_nearer(from: Rect, area: Rect, other: Rect, direction: FocusDirection) -> bool {
    let near = cells_ahead(from, area, direction);
    let far = cells_ahead(from, other, direction);
    &&& near > 0
    &&& cells_aside(from, area, direction) < 10_000
    &&& near < far || (near == far && cells_aside(from, area, direction) < cells_aside(
        from,
        other,
        direction,
    ))
}

proof fn lemma_score(from: Rect, to: Rect, direction: FocusDirection)
    ensures
        layout::focus_score(from, to, direction) == (if cells_ahead(from, to, direction) > 0 {
            Some(cells_ahead(from, to, direction) * 10_000 + cells_aside(from, to, direction))
        } else {
            None
        }),
        cells_aside(from, to, direction) >= 0,
{
}

proof fn lemma_not_nearer(from: Rect, area: Rect, other: Rect, direction: FocusDirection)
    requires
        layout::focus_score(from, other, direction) is Some,
        layout::focus_score(from, area, direction) matches Some(score) ==> layout::focus_score(
            from,
            other,
            direction,
        )->0 <= score,
    ensures
        !lies_nearer(from, area, other, direction),
{
    lemma_score(from, area, direction);
    lemma_score(from, other, direction);
}

/// The focus moves to a view that lies in the direction, and no other view lies nearer in it. It
/// stays only where no other view lies in the direction.
pub proof fn law_focus_moves_to_nearest(
    areas: Seq<(usize, Rect)>,
    active: usize,
    from: Rect,
    direction: FocusDirection,
)
    ensures
        match layout::nearest_view(areas, active, from, direction) {
            Some((view, _)) => view != active && exists|k: int|
                0 <= k < areas.len() && (#[trigger] areas[k]).0 == view && is_nearest(
                    areas,
                    active,
                    from,
                    direction,
                    areas[k].1,
                ),
            None => forall|m: int|
                0 <= m < areas.len() && (#[trigger] areas[m]).0 != active ==> cells_ahead(
                    from,
                    areas[m].1,
                    direction,
                ) <= 0,
        },
{
    lemma_nearest(areas, active, from, direction);
    match layout::nearest_view(areas, active, from, direction) {
        Some((view, score)) => {
            let k = choose|k: int|
                0 <= k < areas.len() && (#[trigger] areas[k]).0 == view && layout::focus_score(
                    from,
                    areas[k].1,
                    direction,
                ) == Some(score) && forall|m: int|
                    0 <= m < areas.len() && (#[trigger] areas[m]).0 != active ==> match layout::focus_score(
                        from,
                        areas[m].1,
                        direction,
                    ) {
                        Some(other) => score <= other && (m < k ==> score < other),
                        None => true,
                    };
            lemma_score(from, areas[k].1, direction);
            assert forall|m: int|
                0 <= m < areas.len() && (#[trigger] areas[m]).0 != active implies !lies_nearer(
                from,
                areas[m].1,
                areas[k].1,
                direction,
            ) by {
                lemma_not_nearer(from, areas[m].1, areas[k].1, direction);
            }
            assert(is_nearest(areas, active, from, direction, areas[k].1));
        },
        None => {
            assert forall|m: int|
                0 <= m < areas.len() && (#[trigger] areas[m]).0 != active implies cells_ahead(
                from,
                areas[m].1,
                direction,
            ) <= 0 by {
                lemma_score(from, areas[m].1, direction);
            }
        },
    }
}

/// A click focuses a view whose area holds the cell, and does nothing where no area holds it.
pub proof fn law_click_focuses_view_under_pointer(app: AppModel, column: u16, row: u16)
    requires
        app.is_sound(),
    ensures
        (exists|k: int|
            0 <= k < app.pane_areas.len() && within_area(
                (#[trigger] app.pane_areas[k]).1,
                column,
                row,
            )) ==> exists|k: int|
            0 <= k < app.pane_areas.len() && within_area(
                (#[trigger] app.pane_areas[k]).1,
                column,
                row,
            ) && app.clicked(column, row).active().active_view == app.pane_areas[k].0,
        (forall|k: int|
            0 <= k < app.pane_areas.len() ==> !within_area(
                (#[trigger] app.pane_areas[k]).1,
                column,
                row,
            )) ==> app.clicked(column, row) == app,
{
    lemma_view_at(app.pane_areas, column, row);
}

/// Whether a cell lies in an area.
pub open spec fn within_area(area: Rect, column: u16, row: u16) -> bool {
    &&& area.x <= column < area.x + area.width && column < u16::MAX
    &&& area.y <= row < area.y + area.height && row < u16::MAX
}

proof fn lemma_view_at(areas: Seq<(usize, Rect)>, column: u16, row: u16)
    ensures
        match layout::view_at(areas, column, row) {
            Some(view) => exists|k: int|
                0 <= k < areas.len() && within_area((#[trigger] areas[k]).1, column, row)
                    && areas[k].0 == view,
            None => forall|k: int|
                0 <= k < areas.len() ==> !within_area((#[trigger] areas[k]).1, column, row),
        },
    decreases areas.len(),
{
    if areas.len() > 0 {
        let front = areas.drop_last();
        lemma_view_at(front, column, row);
        let last = areas.len() - 1;
        match layout::view_at(areas, column, row) {
            Some(view) => {
                if layout::view_at(front, column, row) is Some {
                    let k = choose|k: int|
                        0 <= k < front.len() && within_area((#[trigger] front[k]).1, column, row)
                            && front[k].0 == view;
                    assert(areas[k] == front[k]);
                } else {
                    assert(within_area(areas[last].1, column, row));
                }
            },
            None => {
                assert forall|k: int| 0 <= k < areas.len() implies !within_area(
                    (#[trigger] areas[k]).1,
                    column,
                    row,
                ) by {
                    if k < last {
                        assert(!within_area(front[k].1, column, row));
                    }
                }
            },
        }
    }
}

/// Moving the focus changes nothing but which view of the active tab is active, and what is
/// said; it goes from the area of the active view to the nearest view in the direction.
pub proof fn law_focus_changes_active_view(app: AppModel, direction: FocusDirection)
    requires
        app.is_sound(),
    ensures
        ({
            let after = app.focus_moved(direction);
            let active = app.active().active_view;
            &&& after.active_tab == app.active_tab
            &&& after.tabs.len() == app.tabs.len()
            &&& after.active().views == app.active().views
            &&& after.active().layout == app.active().layout
            &&& forall|i: int|
                0 <= i < app.tabs.len() && i != app.active_tab ==> #[trigger] after.tabs[i]
                    == app.tabs[i]
            &&& after.active().active_view == (match layout::area_of(app.pane_areas, active) {
                Some(from) => match layout::nearest_view(app.pane_areas, active, from, direction) {
                    Some((view, _)) => view,
                    None => active,
                },
                None => active,
            })
        }),
{
}

} // verus!
