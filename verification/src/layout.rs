//! How the views of a tab share the screen.
use vstd::prelude::*;
use vstd::string::*;

use ratatui::layout::{Constraint, Layout};


verus! {

/// The parts that a split is measured in.
pub const SPLIT_RATIO_SCALE: u16 = 1000;

/// The ratio of a split into halves.
pub const EQUAL_SPLIT_RATIO: u16 = 500;

/// The least height that resizing leaves a view.
pub const MIN_VIEW_HEIGHT: u16 = 5;

/// The least width that resizing leaves a view.
pub const MIN_VIEW_WIDTH: u16 = 20;

/// A part of the screen.
#[derive(Clone, Copy, Debug, PartialEq, Eq, Structural)]
pub struct Rect {
    pub x: u16,
    pub y: u16,
    pub width: u16,
    pub height: u16,
}

/// The sum of two coordinates, or the greatest coordinate where it would lie behind that.
pub open spec fn bounded(a: int, b: int) -> int {
    if a + b > u16::MAX {
        u16::MAX as int
    } else {
        a + b
    }
}

/// Adds two coordinates.
pub fn bounded_sum(a: u16, b: u16) -> (r: u16)
    ensures
        r == bounded(a as int, b as int),
{
    if a > u16::MAX - b {
        u16::MAX
    } else {
        a + b
    }
}

impl Rect {
    /// The column behind the area.
    pub open spec fn right_of(self) -> int {
        bounded(self.x as int, self.width as int)
    }

    /// The row behind the area.
    pub open spec fn bottom_of(self) -> int {
        bounded(self.y as int, self.height as int)
    }

    /// Whether a cell lies in the area.
    pub open spec fn holds(self, column: u16, row: u16) -> bool {
        self.x <= column < self.right_of() && self.y <= row < self.bottom_of()
    }

    /// An area; where it would reach behind the greatest coordinate, it is cut off there.
    pub fn new(x: u16, y: u16, width: u16, height: u16) -> (r: Self)
        ensures
            r.x == x,
            r.y == y,
            r.width == bounded(x as int, width as int) - x,
            r.height == bounded(y as int, height as int) - y,
    {
        Rect { x, y, width: bounded_sum(x, width) - x, height: bounded_sum(y, height) - y }
    }

    /// The column behind the area.
    pub fn right(&self) -> (r: u16)
        ensures
            r == self.right_of(),
    {
        bounded_sum(self.x, self.width)
    }

    /// The row behind the area.
    pub fn bottom(&self) -> (r: u16)
        ensures
            r == self.bottom_of(),
    {
        bounded_sum(self.y, self.height)
    }

    /// Tells whether a cell lies in the area.
    pub fn contains(&self, column: u16, row: u16) -> (r: bool)
        ensures
            r == self.holds(column, row),
    {
        self.x <= column && column < self.right() && self.y <= row && row < self.bottom()
    }
}

/// How a split lies.
#[derive(Clone, Copy, Debug, PartialEq, Eq, Structural)]
pub enum SplitDirection {
    /// One part above the other.
    Horizontal,
    /// The parts side by side.
    Vertical,
}

/// How the views of a tab share its area.
#[derive(Debug, PartialEq, Eq)]
pub enum ViewLayout {
    /// A view.
    Pane { index: usize },
    /// Two parts, the first of which takes `ratio` thousandths.
    Split {
        direction: SplitDirection,
        ratio: u16,
        first: Box<ViewLayout>,
        second: Box<ViewLayout>,
    },
}

impl Clone for ViewLayout {
    fn clone(&self) -> (r: Self)
        ensures
            r == *self,
        decreases self,
    {
        match self {
            ViewLayout::Pane { index } => ViewLayout::Pane { index: *index },
            ViewLayout::Split { direction, ratio, first, second } => ViewLayout::Split {
                direction: *direction,
                ratio: *ratio,
                first: Box::new((&**first).clone()),
                second: Box::new((&**second).clone()),
            },
        }
    }
}

impl Default for ViewLayout {
    fn default() -> (r: Self)
        ensures
            r == (ViewLayout::Pane { index: 0 }),
    {
        ViewLayout::Pane { index: 0 }
    }
}

/// The views of a layout, from top left to bottom right.
pub open spec fn leaves(layout: ViewLayout) -> Seq<usize>
    decreases layout,
{
    match layout {
        ViewLayout::Pane { index } => seq![index],
        ViewLayout::Split { first, second, .. } => leaves(*first) + leaves(*second),
    }
}

/// Whether every split is measured in thousandths.
pub open spec fn ratios_fit(layout: ViewLayout) -> bool
    decreases layout,
{
    match layout {
        ViewLayout::Pane { .. } => true,
        ViewLayout::Split { ratio, first, second, .. } => {
            &&& ratio <= SPLIT_RATIO_SCALE
            &&& ratios_fit(*first)
            &&& ratios_fit(*second)
        },
    }
}

/// Whether every view of a layout is one of the first `count`.
pub open spec fn indices_fit(layout: ViewLayout, count: int) -> bool
    decreases layout,
{
    match layout {
        ViewLayout::Pane { index } => index < count,
        ViewLayout::Split { first, second, .. } => {
            &&& indices_fit(*first, count)
            &&& indices_fit(*second, count)
        },
    }
}

/// Whether a layout can be shown with `count` views.
pub open spec fn layout_fits(layout: ViewLayout, count: int) -> bool {
    ratios_fit(layout) && indices_fit(layout, count)
}

/// Tells whether a layout can be shown with `count` views.
pub fn is_shown_with(layout: &ViewLayout, count: u128) -> (r: bool)
    ensures
        r == layout_fits(*layout, count as int),
    decreases layout,
{
    match layout {
        ViewLayout::Pane { index } => (*index as u128) < count,
        ViewLayout::Split { ratio, first, second, .. } => *ratio <= SPLIT_RATIO_SCALE
            && is_shown_with(first, count) && is_shown_with(second, count),
    }
}

/// More views do no harm.
pub proof fn lemma_indices_fit(layout: ViewLayout, count: int, more: int)
    requires
        indices_fit(layout, count),
        count <= more,
    ensures
        indices_fit(layout, more),
    decreases layout,
{
    match layout {
        ViewLayout::Pane { .. } => {},
        ViewLayout::Split { first, second, .. } => {
            lemma_indices_fit(*first, count, more);
            lemma_indices_fit(*second, count, more);
        },
    }
}

/// The split that takes the place of a view: the view first, and a new one behind it.
pub open spec fn halved(target: usize, new_index: usize, direction: SplitDirection) -> ViewLayout {
    ViewLayout::Split {
        direction,
        ratio: EQUAL_SPLIT_RATIO,
        first: Box::new(ViewLayout::Pane { index: target }),
        second: Box::new(ViewLayout::Pane { index: new_index }),
    }
}

/// The layout with the first place of a view split, where the view has one.
pub open spec fn with_leaf_split(
    layout: ViewLayout,
    target: usize,
    new_index: usize,
    direction: SplitDirection,
) -> Option<ViewLayout>
    decreases layout,
{
    match layout {
        ViewLayout::Pane { index } => if index == target {
            Some(halved(target, new_index, direction))
        } else {
            None
        },
        ViewLayout::Split { direction: along, ratio, first, second } => match with_leaf_split(
            *first,
            target,
            new_index,
            direction,
        ) {
            Some(inner) => Some(
                ViewLayout::Split { direction: along, ratio, first: Box::new(inner), second },
            ),
            None => match with_leaf_split(*second, target, new_index, direction) {
                Some(inner) => Some(
                    ViewLayout::Split { direction: along, ratio, first, second: Box::new(inner) },
                ),
                None => None,
            },
        },
    }
}

/// Splits the first place of a view, and tells whether the view has one.
pub fn split_layout_leaf(
    layout: &mut ViewLayout,
    target: usize,
    new_index: usize,
    direction: SplitDirection,
) -> (r: bool)
    ensures
        match with_leaf_split(*old(layout), target, new_index, direction) {
            Some(after) => r && *final(layout) == after,
            None => !r && *final(layout) == *old(layout),
        },
    decreases *old(layout),
{
    match layout {
        ViewLayout::Pane { index } => {
            if *index == target {
                *layout =
                ViewLayout::Split {
                    direction,
                    ratio: EQUAL_SPLIT_RATIO,
                    first: Box::new(ViewLayout::Pane { index: target }),
                    second: Box::new(ViewLayout::Pane { index: new_index }),
                };
                true
            } else {
                false
            }
        },
        ViewLayout::Split { first, second, .. } => {
            if split_layout_leaf(first, target, new_index, direction) {
                true
            } else {
                split_layout_leaf(second, target, new_index, direction)
            }
        },
    }
}

proof fn lemma_split_absent(
    layout: ViewLayout,
    target: usize,
    new_index: usize,
    direction: SplitDirection,
)
    ensures
        with_leaf_split(layout, target, new_index, direction) is Some == leaves(layout).contains(
            target,
        ),
    decreases layout,
{
    match layout {
        ViewLayout::Pane { index } => {
            assert(leaves(layout)[0] == index);
        },
        ViewLayout::Split { first, second, .. } => {
            lemma_split_absent(*first, target, new_index, direction);
            lemma_split_absent(*second, target, new_index, direction);
            lemma_sum_contains(leaves(*first), leaves(*second), target);
        },
    }
}

proof fn lemma_sum_contains(a: Seq<usize>, b: Seq<usize>, x: usize)
    ensures
        (a + b).contains(x) == (a.contains(x) || b.contains(x)),
{
    if a.contains(x) {
        let i = choose|i: int| 0 <= i < a.len() && a[i] == x;
        assert((a + b)[i] == x);
    }
    if b.contains(x) {
        let i = choose|i: int| 0 <= i < b.len() && b[i] == x;
        assert((a + b)[a.len() + i] == x);
    }
}

/// Splitting a view that has a place always succeeds. It leaves all places as they are and in
/// their order, puts the new view right behind the one that was split, and the layout can be
/// shown with the new view.
pub proof fn law_split_adds_view(
    layout: ViewLayout,
    target: usize,
    new_index: usize,
    direction: SplitDirection,
)
    requires
        leaves(layout).contains(target),
    ensures
        ({
            let after = with_leaf_split(layout, target, new_index, direction);
            &&& after is Some
            &&& exists|i: int|
                0 <= i < leaves(layout).len() && leaves(layout)[i] == target
                    && #[trigger] leaves(layout).insert(i + 1, new_index) == leaves(after->0)
            &&& layout_fits(layout, new_index as int) ==> layout_fits(after->0, new_index + 1)
        }),
    decreases layout,
{
    lemma_split_absent(layout, target, new_index, direction);
    let after = with_leaf_split(layout, target, new_index, direction)->0;
    match layout {
        ViewLayout::Pane { index } => {
            reveal_with_fuel(leaves, 2);
            reveal_with_fuel(ratios_fit, 2);
            reveal_with_fuel(indices_fit, 2);
            assert(leaves(layout)[0] == target);
            assert(leaves(layout).insert(1, new_index) =~= leaves(after));
        },
        ViewLayout::Split { first, second, .. } => {
            lemma_split_absent(*first, target, new_index, direction);
            lemma_sum_contains(leaves(*first), leaves(*second), target);
            if layout_fits(layout, new_index as int) {
                lemma_indices_fit(*first, new_index as int, new_index + 1);
                lemma_indices_fit(*second, new_index as int, new_index + 1);
            }
            if leaves(*first).contains(target) {
                law_split_adds_view(*first, target, new_index, direction);
                let inner = with_leaf_split(*first, target, new_index, direction)->0;
                let i = choose|i: int|
                    0 <= i < leaves(*first).len() && leaves(*first)[i] == target
                        && #[trigger] leaves(*first).insert(i + 1, new_index) == leaves(inner);
                assert(leaves(layout)[i] == target);
                assert(leaves(layout).insert(i + 1, new_index) =~= leaves(after));
            } else {
                law_split_adds_view(*second, target, new_index, direction);
                let inner = with_leaf_split(*second, target, new_index, direction)->0;
                let i = choose|i: int|
                    0 <= i < leaves(*second).len() && leaves(*second)[i] == target
                        && #[trigger] leaves(*second).insert(i + 1, new_index) == leaves(inner);
                let k = leaves(*first).len() + i;
                assert(leaves(layout)[k] == target);
                assert(leaves(layout).insert(k + 1, new_index) =~= leaves(after));
            }
        },
    }
}

/// A split keeps a layout showable, whether the view was found or not.
pub proof fn lemma_split_fits(
    layout: ViewLayout,
    target: usize,
    new_index: usize,
    direction: SplitDirection,
)
    requires
        layout_fits(layout, new_index as int),
    ensures
        layout_fits(layout, new_index + 1),
        match with_leaf_split(layout, target, new_index, direction) {
            Some(after) => layout_fits(after, new_index + 1),
            None => true,
        },
{
    lemma_indices_fit(layout, new_index as int, new_index + 1);
    lemma_split_absent(layout, target, new_index, direction);
    if leaves(layout).contains(target) {
        law_split_adds_view(layout, target, new_index, direction);
    }
}

/// The cells of an area along which a split divides it.
pub open spec fn extent(direction: SplitDirection, area: Rect) -> int {
    match direction {
        SplitDirection::Horizontal => area.bottom_of() - area.y,
        SplitDirection::Vertical => area.right_of() - area.x,
    }
}

/// The size of an area along the direction that a split divides.
pub open spec fn size_along(direction: SplitDirection, area: Rect) -> u16 {
    match direction {
        SplitDirection::Horizontal => area.height,
        SplitDirection::Vertical => area.width,
    }
}

/// Whether a part lies within an area that was split, and has the whole of it across the
/// direction of the split.
pub open spec fn is_part(direction: SplitDirection, area: Rect, part: Rect) -> bool {
    match direction {
        SplitDirection::Horizontal => {
            &&& part.x == area.x && part.width == area.width
            &&& area.y <= part.y && part.y + part.height <= area.bottom_of()
        },
        SplitDirection::Vertical => {
            &&& part.y == area.y && part.height == area.height
            &&& area.x <= part.x && part.x + part.width <= area.right_of()
        },
    }
}

/// Whether the first part of an area that was split starts where the area does, and the second
/// ends where the area does.
pub open spec fn reach_ends(direction: SplitDirection, area: Rect, first: Rect, second: Rect) -> bool {
    match direction {
        SplitDirection::Horizontal => {
            first.y == area.y && second.y + second.height == area.bottom_of()
        },
        SplitDirection::Vertical => {
            first.x == area.x && second.x + second.width == area.right_of()
        },
    }
}

/// Whether a size is a share of an extent, which is a number of parts of it, rounded to the
/// nearest cell. A share that is within a hundredth of a cell of the middle between two sizes
/// may be rounded either way.
pub open spec fn near_share(size: u16, share: int, parts: int, extent: int) -> bool {
    -51 * parts <= 100 * (parts * size - share * extent) <= 51 * parts
}

/// Whether two areas are the parts of an area that was split.
pub open spec fn are_parts(
    direction: SplitDirection,
    ratio: u16,
    area: Rect,
    first: Rect,
    second: Rect,
) -> bool {
    &&& is_part(direction, area, first)
    &&& is_part(direction, area, second)
    &&& reach_ends(direction, area, first, second)
    &&& near_share(
        size_along(direction, first),
        ratio as int,
        SPLIT_RATIO_SCALE as int,
        extent(direction, area),
    )
    &&& near_share(
        size_along(direction, second),
        SPLIT_RATIO_SCALE - ratio,
        SPLIT_RATIO_SCALE as int,
        extent(direction, area),
    )
}

/// `ratatui::layout::Layout::areas`, of a vertical or a horizontal layout with the two
/// constraints `Ratio(first, parts)` and `Ratio(second, parts)`: both parts lie within the area
/// and have the whole of it across the split, which are required constraints of the layout;
/// along the split the first starts and the second ends with the area, and each has its share of
/// it. Where the parts meet is rounded to a hundredth of a cell and then to a whole cell, for
/// each part by itself. How a share is rounded that lies a hundredth of a cell or less from the
/// middle between two cells is left open, and so is whether the parts touch then: the layout is
/// found by a solver in floating point, which walks hash maps with random seeds.
#[verifier::external_body]
fn ratio_areas(direction: SplitDirection, first: u32, second: u32, parts: u32, area: Rect) -> (r: (
    Rect,
    Rect,
))
    requires
        0 < parts <= u16::MAX,
        first + second == parts,
    ensures
        is_part(direction, area, r.0),
        is_part(direction, area, r.1),
        reach_ends(direction, area, r.0, r.1),
        near_share(size_along(direction, r.0), first as int, parts as int, extent(direction, area)),
        near_share(size_along(direction, r.1), second as int, parts as int, extent(direction, area)),
{
    let constraints = [Constraint::Ratio(first, parts), Constraint::Ratio(second, parts)];
    let layout = match direction {
        SplitDirection::Horizontal => Layout::vertical(constraints),
        SplitDirection::Vertical => Layout::horizontal(constraints),
    };
    let Rect { x, y, width, height } = area;
    let [a, b] = layout.areas(ratatui::layout::Rect { x, y, width, height });
    (
        Rect { x: a.x, y: a.y, width: a.width, height: a.height },
        Rect { x: b.x, y: b.y, width: b.width, height: b.height },
    )
}

/// Whether three areas divide an area from top to bottom, without a gap between them.
pub open spec fn divide_rows(area: Rect, top: Rect, middle: Rect, bottom: Rect) -> bool {
    &&& is_part(SplitDirection::Horizontal, area, top)
    &&& is_part(SplitDirection::Horizontal, area, middle)
    &&& is_part(SplitDirection::Horizontal, area, bottom)
    &&& top.y == area.y
    &&& middle.y == top.y + top.height
    &&& bottom.y == middle.y + middle.height
    &&& bottom.y + bottom.height == area.bottom_of()
}

/// `ratatui::layout::Layout::areas`, of a vertical layout with the constraints `Length(top)`,
/// `Min(least)` and `Length(bottom)`: the parts fill the area from top to bottom and have the
/// whole of its width. Where there is room, the first and the last part have their lengths and
/// the middle one grows to the rest; where there is not, the middle one has its least height as
/// far as the area goes, since a minimum is the stronger constraint. What is then left for the
/// first and for the last part is not said.
#[verifier::external_body]
fn row_areas(area: Rect, top: u16, least: u16, bottom: u16) -> (r: (Rect, Rect, Rect))
    requires
        least <= i16::MAX,
    ensures
        divide_rows(area, r.0, r.1, r.2),
        ({
            let rows = extent(SplitDirection::Horizontal, area);
            if top + least + bottom <= rows {
                r.0.height == top && r.2.height == bottom
            } else {
                r.1.height == (if least < rows {
                    least as int
                } else {
                    rows
                })
            }
        }),
{
    let constraints = [Constraint::Length(top), Constraint::Min(least), Constraint::Length(bottom)];
    let Rect { x, y, width, height } = area;
    let parts: [ratatui::layout::Rect; 3] = Layout::vertical(constraints).areas(
        ratatui::layout::Rect { x, y, width, height },
    );
    let [a, b, c] = parts;
    (
        Rect { x: a.x, y: a.y, width: a.width, height: a.height },
        Rect { x: b.x, y: b.y, width: b.width, height: b.height },
        Rect { x: c.x, y: c.y, width: c.width, height: c.height },
    )
}

/// Whether three areas are those of the tabs, the body and the status bar of a screen. The tabs
/// and the status bar take one row each and the body takes the rest; on a screen of less than
/// five rows the body keeps three of them, as far as there are.
pub open spec fn is_frame(area: Rect, tabs: Rect, body: Rect, bar: Rect) -> bool {
    let rows = extent(SplitDirection::Horizontal, area);
    &&& divide_rows(area, tabs, body, bar)
    &&& rows >= 5 ==> tabs.height == 1 && body.height == rows - 2 && bar.height == 1
    &&& rows < 5 ==> body.height == (if rows < 3 {
        rows
    } else {
        3
    })
}

/// Divides a screen into the areas of the tabs, the body and the status bar.
pub fn frame_areas(area: Rect) -> (r: (Rect, Rect, Rect))
    ensures
        is_frame(area, r.0, r.1, r.2),
{
    row_areas(area, 1, 3, 1)
}

/// `ratatui::layout::Layout::areas`, of a horizontal layout with the constraints `Min(least)`
/// and `Length(last)`: the parts touch, fill the area from left to right and have the whole of
/// its height. The second part has its length as far as the first keeps its least width, and
/// the first has the rest.
#[verifier::external_body]
fn column_areas(area: Rect, least: u16, last: u16) -> (r: (Rect, Rect))
    requires
        least <= i16::MAX,
    ensures
        is_part(SplitDirection::Vertical, area, r.0),
        is_part(SplitDirection::Vertical, area, r.1),
        reach_ends(SplitDirection::Vertical, area, r.0, r.1),
        touch(SplitDirection::Vertical, r.0, r.1),
        ({
            let cells = extent(SplitDirection::Vertical, area);
            r.1.width == (if least + last <= cells {
                last as int
            } else if least < cells {
                cells - least
            } else {
                0
            })
        }),
{
    let constraints = [Constraint::Min(least), Constraint::Length(last)];
    let Rect { x, y, width, height } = area;
    let parts: [ratatui::layout::Rect; 2] = Layout::horizontal(constraints).areas(
        ratatui::layout::Rect { x, y, width, height },
    );
    let [a, b] = parts;
    (
        Rect { x: a.x, y: a.y, width: a.width, height: a.height },
        Rect { x: b.x, y: b.y, width: b.width, height: b.height },
    )
}

/// The cells at the right end of a status bar that are as many as wanted, as far as it goes.
pub open spec fn bar_cells(area: Rect, wanted: int) -> int {
    let cells = extent(SplitDirection::Vertical, area);
    if wanted < cells {
        wanted
    } else {
        cells
    }
}

/// The left part of a status bar, which starts with the bar.
pub open spec fn bar_left(area: Rect, wanted: int) -> Rect {
    Rect {
        width: (extent(SplitDirection::Vertical, area) - bar_cells(area, wanted)) as u16,
        ..area
    }
}

/// The right part of a status bar, which ends with the bar.
pub open spec fn bar_right(area: Rect, wanted: int) -> Rect {
    Rect {
        x: (area.right_of() - bar_cells(area, wanted)) as u16,
        width: bar_cells(area, wanted) as u16,
        ..area
    }
}

/// Divides a status bar into its left part and its right part, which is `wanted` cells wide as
/// far as the bar goes.
pub fn bar_areas(area: Rect, wanted: u16) -> (r: (Rect, Rect))
    ensures
        r.0 == bar_left(area, wanted as int),
        r.1 == bar_right(area, wanted as int),
{
    column_areas(area, 0, wanted)
}

/// The parts of an area that is split.
pub fn split_child_areas(direction: SplitDirection, ratio: u16, area: Rect) -> (r: (Rect, Rect))
    requires
        ratio <= SPLIT_RATIO_SCALE,
    ensures
        are_parts(direction, ratio, area, r.0, r.1),
{
    ratio_areas(
        direction,
        ratio as u32,
        (SPLIT_RATIO_SCALE - ratio) as u32,
        SPLIT_RATIO_SCALE as u32,
        area,
    )
}

/// Whether areas are those of the views of a layout within an area, in the order of
/// [`leaves`].
pub open spec fn are_areas(layout: ViewLayout, area: Rect, areas: Seq<(usize, Rect)>) -> bool
    decreases layout,
{
    match layout {
        ViewLayout::Pane { index } => areas == seq![(index, area)],
        ViewLayout::Split { direction, ratio, first, second } => exists|a: Rect, b: Rect|
            #![trigger are_parts(direction, ratio, area, a, b)]
            {
                &&& are_parts(direction, ratio, area, a, b)
                &&& leaves(*first).len() <= areas.len()
                &&& are_areas(*first, a, areas.take(leaves(*first).len() as int))
                &&& are_areas(*second, b, areas.skip(leaves(*first).len() as int))
            },
    }
}

/// The areas of the views of a layout within an area.
pub fn layout_areas(layout: &ViewLayout, area: Rect) -> (r: Vec<(usize, Rect)>)
    requires
        ratios_fit(*layout),
    ensures
        are_areas(*layout, area, r@),
        r@.map_values(|pane: (usize, Rect)| pane.0) == leaves(*layout),
    decreases layout,
{
    match layout {
        ViewLayout::Pane { index } => {
            let mut r: Vec<(usize, Rect)> = Vec::new();
            r.push((*index, area));
            assert(r@ =~= seq![(*index, area)]);
            assert(r@.map_values(|pane: (usize, Rect)| pane.0) =~= leaves(*layout));
            r
        },
        ViewLayout::Split { direction, ratio, first, second } => {
            let (first_area, second_area) = split_child_areas(*direction, *ratio, area);
            let mut r = layout_areas(first, first_area);
            let ghost firsts = r@;
            let mut seconds = layout_areas(second, second_area);
            let ghost rest = seconds@;
            r.append(&mut seconds);
            proof {
                let views = |pane: (usize, Rect)| pane.0;
                let n = leaves(**first).len() as int;
                assert(firsts.map_values(views).len() == n);
                assert(r@.take(n) =~= firsts);
                assert(r@.skip(n) =~= rest);
                assert(r@.map_values(views) =~= firsts.map_values(views) + rest.map_values(views));
                assert(are_parts(*direction, *ratio, area, first_area, second_area));
            }
            r
        },
    }
}

/// Whether a view has a place in a layout.
pub fn layout_contains(layout: &ViewLayout, target: usize) -> (r: bool)
    ensures
        r == leaves(*layout).contains(target),
    decreases layout,
{
    match layout {
        ViewLayout::Pane { index } => {
            assert(leaves(*layout)[0] == *index);
            *index == target
        },
        ViewLayout::Split { first, second, .. } => {
            proof {
                lemma_sum_contains(leaves(**first), leaves(**second), target);
            }
            layout_contains(first, target) || layout_contains(second, target)
        },
    }
}

/// The way to the innermost split in a direction around a view, and whether the view lies in
/// its first part. A step of the way leads to the second part where it is true.
pub open spec fn resize_way(
    layout: ViewLayout,
    active: usize,
    direction: SplitDirection,
) -> Option<(Seq<bool>, bool)>
    decreases layout,
{
    match layout {
        ViewLayout::Pane { .. } => None,
        ViewLayout::Split { direction: along, first, second, .. } => {
            let in_first = leaves(*first).contains(active);
            if !in_first && !leaves(*second).contains(active) {
                None
            } else {
                let inner = if in_first {
                    resize_way(*first, active, direction)
                } else {
                    resize_way(*second, active, direction)
                };
                match inner {
                    Some((way, first_part)) => Some((seq![!in_first] + way, first_part)),
                    None => if along == direction {
                        Some((Seq::empty(), in_first))
                    } else {
                        None
                    },
                }
            }
        },
    }
}

/// The part of a layout at the end of a way, where the way leads through splits only.
pub open spec fn at_way(layout: ViewLayout, way: Seq<bool>) -> Option<ViewLayout>
    decreases way.len(),
{
    if way.len() == 0 {
        Some(layout)
    } else {
        match layout {
            ViewLayout::Pane { .. } => None,
            ViewLayout::Split { first, second, .. } => at_way(
                if way[0] {
                    *second
                } else {
                    *first
                },
                way.skip(1),
            ),
        }
    }
}

/// Whether an area is one that the part of a layout at the end of a way has within an area.
pub open spec fn is_area_at(layout: ViewLayout, area: Rect, way: Seq<bool>, part: Rect) -> bool
    decreases way.len(),
{
    if way.len() == 0 {
        part == area
    } else {
        match layout {
            ViewLayout::Pane { .. } => false,
            ViewLayout::Split { direction, ratio, first, second } => exists|a: Rect, b: Rect|
                #![trigger are_parts(direction, ratio, area, a, b)]
                {
                    &&& are_parts(direction, ratio, area, a, b)
                    &&& if way[0] {
                        is_area_at(*second, b, way.skip(1), part)
                    } else {
                        is_area_at(*first, a, way.skip(1), part)
                    }
                },
        }
    }
}

/// The split that a resize changes.
pub struct ResizeTarget {
    pub path: Vec<bool>,
    pub area: Rect,
    pub active_in_first: bool,
}

/// Finds the innermost split in a direction around a view.
pub fn nearest_resize_target(
    layout: &ViewLayout,
    area: Rect,
    active: usize,
    direction: SplitDirection,
) -> (r: Option<ResizeTarget>)
    requires
        ratios_fit(*layout),
    ensures
        match r {
            Some(target) => {
                &&& resize_way(*layout, active, direction) == Some(
                    (target.path@, target.active_in_first),
                )
                &&& is_area_at(*layout, area, target.path@, target.area)
            },
            None => resize_way(*layout, active, direction) is None,
        },
    decreases layout,
{
    match layout {
        ViewLayout::Pane { .. } => None,
        ViewLayout::Split { direction: along, ratio, first, second } => {
            let in_first = layout_contains(first, active);
            if !in_first && !layout_contains(second, active) {
                return None;
            }
            let (first_area, second_area) = split_child_areas(*along, *ratio, area);
            let inner = if in_first {
                nearest_resize_target(first, first_area, active, direction)
            } else {
                nearest_resize_target(second, second_area, active, direction)
            };
            match inner {
                Some(target) => {
                    let ghost way = target.path@;
                    let mut target = target;
                    target.path.insert(0, !in_first);
                    assert(target.path@ =~= seq![!in_first] + way);
                    assert(target.path@.skip(1) =~= way);
                    assert(are_parts(*along, *ratio, area, first_area, second_area));
                    Some(target)
                },
                None => if *along == direction {
                    let path: Vec<bool> = Vec::new();
                    assert(path@ =~= Seq::<bool>::empty());
                    Some(ResizeTarget { path, area, active_in_first: in_first })
                } else {
                    None
                },
            }
        },
    }
}

/// The way of a resize leads to a split in its direction.
pub proof fn lemma_resize_way(layout: ViewLayout, active: usize, direction: SplitDirection)
    ensures
        match resize_way(layout, active, direction) {
            Some((way, _)) => match at_way(layout, way) {
                Some(ViewLayout::Split { direction: along, .. }) => along == direction,
                _ => false,
            },
            None => true,
        },
    decreases layout,
{
    match layout {
        ViewLayout::Pane { .. } => {},
        ViewLayout::Split { first, second, .. } => {
            let in_first = leaves(*first).contains(active);
            lemma_resize_way(*first, active, direction);
            lemma_resize_way(*second, active, direction);
            let inner = if in_first {
                resize_way(*first, active, direction)
            } else {
                resize_way(*second, active, direction)
            };
            match inner {
                Some((way, _)) => {
                    assert((seq![!in_first] + way).skip(1) =~= way);
                },
                None => {},
            }
        },
    }
}

/// A number brought into a range.
pub open spec fn clamped(n: int, low: int, high: int) -> int {
    if n < low {
        low
    } else if n > high {
        high
    } else {
        n
    }
}

/// The ratio at which the first part of a split has its size changed by `delta`, as far as both
/// parts keep a least size.
pub open spec fn changed_ratio(total: int, first_size: int, delta: int, minimum: int) -> int {
    let size = clamped(first_size + delta, minimum, total - minimum);
    clamped((size * 1000 + total / 2) / total, 1, 999)
}

/// Computes the ratio at which the first part of a split has its size changed by `delta`, as
/// far as both parts keep a least size.
pub fn resize_ratio(total: u16, first_size: u16, delta: i64, minimum: u16) -> (r: u16)
    requires
        total > 0,
        2 * minimum <= total,
        first_size + delta <= i64::MAX,
    ensures
        r == changed_ratio(total as int, first_size as int, delta as int, minimum as int),
{
    let wanted: i64 = first_size as i64 + delta;
    let low: i64 = minimum as i64;
    let high: i64 = (total - minimum) as i64;
    let size: i64 = if wanted < low {
        low
    } else if wanted > high {
        high
    } else {
        wanted
    };
    let parts: u32 = (size as u32 * 1000 + total as u32 / 2) / total as u32;
    if parts < 1 {
        1
    } else if parts > 999 {
        999
    } else {
        parts as u16
    }
}

/// The layout with another ratio for the split at the end of a way.
pub open spec fn with_ratio(layout: ViewLayout, way: Seq<bool>, new_ratio: u16) -> ViewLayout
    decreases way.len(),
{
    match layout {
        ViewLayout::Pane { .. } => layout,
        ViewLayout::Split { direction, ratio, first, second } => if way.len() == 0 {
            ViewLayout::Split { direction, ratio: new_ratio, first, second }
        } else if way[0] {
            ViewLayout::Split {
                direction,
                ratio,
                first,
                second: Box::new(with_ratio(*second, way.skip(1), new_ratio)),
            }
        } else {
            ViewLayout::Split {
                direction,
                ratio,
                first: Box::new(with_ratio(*first, way.skip(1), new_ratio)),
                second,
            }
        },
    }
}

/// Another ratio changes neither which views a layout shows nor in what order, and leaves it
/// showable.
pub proof fn lemma_with_ratio(layout: ViewLayout, way: Seq<bool>, new_ratio: u16, count: int)
    ensures
        leaves(with_ratio(layout, way, new_ratio)) == leaves(layout),
        layout_fits(layout, count) && new_ratio <= SPLIT_RATIO_SCALE ==> layout_fits(
            with_ratio(layout, way, new_ratio),
            count,
        ),
    decreases way.len(),
{
    if way.len() > 0 {
        match layout {
            ViewLayout::Pane { .. } => {},
            ViewLayout::Split { first, second, .. } => if way[0] {
                lemma_with_ratio(*second, way.skip(1), new_ratio, count);
            } else {
                lemma_with_ratio(*first, way.skip(1), new_ratio, count);
            },
        }
    }
}

/// What became of a resize.
pub enum Resized {
    /// The split has another ratio.
    Done,
    /// The way does not lead to a split.
    Invalid,
    /// The split is too small for two parts of the least size.
    TooSmall,
}

/// Whether a size is one that the first part of a split may have.
pub open spec fn may_be_first(direction: SplitDirection, ratio: u16, area: Rect, size: u16) -> bool {
    exists|a: Rect, b: Rect|
        #[trigger] are_parts(direction, ratio, area, a, b) && size_along(direction, a) == size
}

/// The result of resizing the split at the end of a way: its first part, whose size is
/// `first_size`, becomes greater by `delta` where the active view lies in it, and less
/// otherwise.
pub open spec fn resize_at(
    layout: ViewLayout,
    way: Seq<bool>,
    area: Rect,
    first_size: u16,
    active_in_first: bool,
    delta: int,
    minimum: u16,
) -> (Resized, ViewLayout) {
    match at_way(layout, way) {
        Some(ViewLayout::Split { direction, .. }) => {
            let total = size_along(direction, area);
            if total < 2 * minimum {
                (Resized::TooSmall, layout)
            } else {
                let change = if active_in_first {
                    delta
                } else {
                    -delta
                };
                (
                    Resized::Done,
                    with_ratio(
                        layout,
                        way,
                        changed_ratio(
                            total as int,
                            first_size as int,
                            change,
                            minimum as int,
                        ) as u16,
                    ),
                )
            }
        },
        _ => (Resized::Invalid, layout),
    }
}

/// Whether a size is one that the first part of the split at the end of a way may have.
pub open spec fn may_be_first_at(
    layout: ViewLayout,
    way: Seq<bool>,
    area: Rect,
    size: u16,
) -> bool {
    at_way(layout, way) matches Some(ViewLayout::Split { direction, ratio, .. }) ==> may_be_first(
        direction,
        ratio,
        area,
        size,
    )
}

proof fn lemma_at_way_fits(layout: ViewLayout, way: Seq<bool>)
    requires
        ratios_fit(layout),
    ensures
        at_way(layout, way) matches Some(part) ==> ratios_fit(part),
    decreases way.len(),
{
    if way.len() > 0 {
        match layout {
            ViewLayout::Pane { .. } => {},
            ViewLayout::Split { first, second, .. } => {
                lemma_at_way_fits(
                    if way[0] {
                        *second
                    } else {
                        *first
                    },
                    way.skip(1),
                );
            },
        }
    }
}

fn part_at(layout: &ViewLayout, way: &Vec<bool>, from: usize) -> (r: Option<(SplitDirection, u16)>)
    requires
        from <= way@.len(),
    ensures
        match at_way(*layout, way@.skip(from as int)) {
            Some(ViewLayout::Split { direction, ratio, .. }) => r == Some((direction, ratio)),
            _ => r is None,
        },
    decreases way@.len() - from,
{
    match layout {
        ViewLayout::Pane { .. } => None,
        ViewLayout::Split { direction, ratio, first, second } => {
            if from == way.len() {
                return Some((*direction, *ratio));
            }
            assert(way@.skip(from as int).skip(1) =~= way@.skip(from + 1));
            if way[from] {
                part_at(second, way, from + 1)
            } else {
                part_at(first, way, from + 1)
            }
        },
    }
}

fn set_ratio(layout: &mut ViewLayout, way: &Vec<bool>, from: usize, new_ratio: u16)
    requires
        from <= way@.len(),
    ensures
        *final(layout) == with_ratio(*old(layout), way@.skip(from as int), new_ratio),
    decreases way@.len() - from,
{
    match layout {
        ViewLayout::Pane { .. } => {},
        ViewLayout::Split { ratio, first, second, .. } => {
            if from == way.len() {
                *ratio = new_ratio;
            } else {
                assert(way@.skip(from as int).skip(1) =~= way@.skip(from + 1));
                if way[from] {
                    set_ratio(second, way, from + 1, new_ratio);
                } else {
                    set_ratio(first, way, from + 1, new_ratio);
                }
            }
        },
    }
}

/// Resizes the split at the end of a way.
pub fn resize_layout_split(
    layout: &mut ViewLayout,
    path: &Vec<bool>,
    area: Rect,
    active_in_first: bool,
    delta: i32,
    minimum: u16,
) -> (r: Resized)
    requires
        ratios_fit(*old(layout)),
        at_way(*old(layout), path@) matches Some(ViewLayout::Split { direction, .. }) ==> minimum
            > 0 || size_along(direction, area) > 0,
    ensures
        exists|size: u16|
            #![trigger may_be_first_at(*old(layout), path@, area, size)]
            may_be_first_at(*old(layout), path@, area, size) && (r, *final(layout)) == resize_at(
                *old(layout),
                path@,
                area,
                size,
                active_in_first,
                delta as int,
                minimum,
            ),
{
    let ghost before = *layout;
    assert(path@.skip(0) =~= path@);
    proof {
        lemma_at_way_fits(before, path@);
    }
    let (direction, ratio) = match part_at(layout, path, 0) {
        Some(part) => part,
        None => {
            assert(may_be_first_at(before, path@, area, 0));
            return Resized::Invalid;
        },
    };
    let (first_area, second_area) = split_child_areas(direction, ratio, area);
    let (total, first_size) = match direction {
        SplitDirection::Horizontal => (area.height, first_area.height),
        SplitDirection::Vertical => (area.width, first_area.width),
    };
    assert(are_parts(direction, ratio, area, first_area, second_area));
    assert(may_be_first(direction, ratio, area, first_size));
    assert(may_be_first_at(before, path@, area, first_size));
    if (total as u32) < 2 * minimum as u32 {
        return Resized::TooSmall;
    }
    let change: i64 = if active_in_first {
        delta as i64
    } else {
        -(delta as i64)
    };
    let new_ratio = resize_ratio(total, first_size, change, minimum);
    set_ratio(layout, path, 0, new_ratio);
    Resized::Done
}

/// The number of views of a layout, as far as a `u64` can tell.
pub open spec fn leaf_count(layout: ViewLayout) -> int {
    if leaves(layout).len() > u64::MAX {
        u64::MAX as int
    } else {
        leaves(layout).len() as int
    }
}

/// The ratio at which the views of two parts are equal in size.
pub open spec fn fair_ratio(first: int, second: int) -> int {
    clamped((first * 1000 + (first + second) / 2) / (first + second), 1, 999)
}

/// The layout with every split measured by the views of its parts.
pub open spec fn equalized(layout: ViewLayout) -> ViewLayout
    decreases layout,
{
    match layout {
        ViewLayout::Pane { .. } => layout,
        ViewLayout::Split { direction, first, second, .. } => ViewLayout::Split {
            direction,
            ratio: fair_ratio(leaf_count(*first), leaf_count(*second)) as u16,
            first: Box::new(equalized(*first)),
            second: Box::new(equalized(*second)),
        },
    }
}

proof fn lemma_leaves_not_empty(layout: ViewLayout)
    ensures
        leaves(layout).len() > 0,
    decreases layout,
{
    match layout {
        ViewLayout::Pane { .. } => {},
        ViewLayout::Split { first, .. } => {
            lemma_leaves_not_empty(*first);
        },
    }
}

/// Measures every split by the views of its parts, and counts the views.
pub fn equalize_layout(layout: &mut ViewLayout) -> (r: u64)
    ensures
        *final(layout) == equalized(*old(layout)),
        r == leaf_count(*old(layout)),
    decreases *old(layout),
{
    proof {
        lemma_leaves_not_empty(*layout);
    }
    match layout {
        ViewLayout::Pane { .. } => 1,
        ViewLayout::Split { ratio, first, second, .. } => {
            proof {
                lemma_leaves_not_empty(**first);
                lemma_leaves_not_empty(**second);
            }
            let first_count: u64 = equalize_layout(first);
            let second_count: u64 = equalize_layout(second);
            let total: u128 = first_count as u128 + second_count as u128;
            let parts: u128 = (first_count as u128 * 1000 + total / 2) / total;
            assert(parts == (first_count * 1000 + (first_count + second_count) / 2) / (first_count
                + second_count));
            *ratio =
            if parts < 1 {
                1
            } else if parts > 999 {
                999
            } else {
                parts as u16
            };
            if total > u64::MAX as u128 {
                u64::MAX
            } else {
                total as u64
            }
        },
    }
}

/// Equalizing changes neither which views a layout shows nor in what order; the layout can be
/// shown with the same views, and equalizing it once more changes nothing.
pub proof fn law_equalize_keeps_arrangement(layout: ViewLayout, count: int)
    ensures
        leaves(equalized(layout)) == leaves(layout),
        indices_fit(layout, count) ==> layout_fits(equalized(layout), count),
        equalized(equalized(layout)) == equalized(layout),
    decreases layout,
{
    match layout {
        ViewLayout::Pane { .. } => {},
        ViewLayout::Split { first, second, .. } => {
            law_equalize_keeps_arrangement(*first, count);
            law_equalize_keeps_arrangement(*second, count);
        },
    }
}

/// A resize keeps both parts at their least size: the ratio is that of some number of cells for
/// the first part which leaves both parts at least `minimum`, to half a thousandth.
pub proof fn law_resize_keeps_minimum(total: int, first_size: int, delta: int, minimum: int)
    requires
        0 < minimum,
        2 * minimum <= total <= u16::MAX,
        total < 2000 * minimum,
    ensures
        ({
            let ratio = changed_ratio(total, first_size, delta, minimum);
            let size = clamped(first_size + delta, minimum, total - minimum);
            &&& minimum <= size <= total - minimum
            &&& 0 < ratio < SPLIT_RATIO_SCALE
            &&& 2 * (1000 * size - ratio * total) <= total
            &&& 2 * (ratio * total - 1000 * size) <= total
        }),
{
    let size = clamped(first_size + delta, minimum, total - minimum);
    let sum = size * 1000 + total / 2;
    let parts = sum / total;
    assert(parts * total <= sum < (parts + 1) * total) by (nonlinear_arith)
        requires
            total > 0,
            parts == sum / total,
    ;
    assert(parts >= 1) by (nonlinear_arith)
        requires
            total > 0,
            sum >= total,
            sum < (parts + 1) * total,
    ;
    assert(parts <= 999) by (nonlinear_arith)
        requires
            total > 0,
            parts * total <= sum,
            sum < 1000 * total,
    ;
    assert((parts + 1) * total == parts * total + total) by (nonlinear_arith);
}

/// Whether the second part of an area that was split starts where the first ends.
pub open spec fn touch(direction: SplitDirection, first: Rect, second: Rect) -> bool {
    match direction {
        SplitDirection::Horizontal => first.y + first.height == second.y,
        SplitDirection::Vertical => first.x + first.width == second.x,
    }
}

/// The parts of a split share its area: they overlap in at most one cell and leave at most one
/// between them. Unless the share of the first is within a hundredth of a cell of the middle
/// between two sizes, they touch.
pub proof fn law_split_shares_area(
    direction: SplitDirection,
    ratio: u16,
    area: Rect,
    first: Rect,
    second: Rect,
)
    requires
        are_parts(direction, ratio, area, first, second),
    ensures
        ({
            let both = size_along(direction, first) + size_along(direction, second);
            let cells = extent(direction, area);
            let part_of_cell = (ratio * cells) % (SPLIT_RATIO_SCALE as int);
            &&& cells - 1 <= both <= cells + 1
            &&& part_of_cell < 490 || 510 < part_of_cell ==> both == cells && touch(
                direction,
                first,
                second,
            )
        }),
{
    let cells = extent(direction, area);
    let share = ratio * cells;
    assert((SPLIT_RATIO_SCALE - ratio) * cells == 1000 * cells - share) by (nonlinear_arith)
        requires
            share == ratio * cells,
            SPLIT_RATIO_SCALE == 1000,
    ;
}

/// A resize moves the border between the parts of a split by as many cells as it is told to, as
/// far as both parts keep their least size, and the parts touch. This holds of splits that are
/// less than 980 cells long: a ratio is measured in thousandths, which are too coarse for longer
/// ones.
pub proof fn law_resize_is_exact(
    direction: SplitDirection,
    area: Rect,
    first_size: int,
    delta: int,
    minimum: int,
    first: Rect,
    second: Rect,
)
    requires
        0 < minimum,
        2 * minimum <= size_along(direction, area) < 980,
        extent(direction, area) == size_along(direction, area),
        are_parts(
            direction,
            changed_ratio(
                size_along(direction, area) as int,
                first_size,
                delta,
                minimum,
            ) as u16,
            area,
            first,
            second,
        ),
    ensures
        ({
            let total = size_along(direction, area);
            let size = clamped(first_size + delta, minimum, total - minimum);
            &&& size_along(direction, first) == size
            &&& size_along(direction, second) == total - size
            &&& touch(direction, first, second)
        }),
{
    let total = size_along(direction, area) as int;
    law_resize_keeps_minimum(total, first_size, delta, minimum);
    let ratio = changed_ratio(total, first_size, delta, minimum);
    assert((SPLIT_RATIO_SCALE - ratio) * total == 1000 * total - ratio * total)
        by (nonlinear_arith)
        requires
            SPLIT_RATIO_SCALE == 1000,
    ;
}

/// The least of the left columns of some areas.
pub open spec fn least_x(areas: Seq<(usize, Rect)>) -> int
    decreases areas.len(),
{
    if areas.len() <= 1 {
        areas[0].1.x as int
    } else {
        let rest = least_x(areas.drop_last());
        if (areas.last().1.x as int) < rest {
            areas.last().1.x as int
        } else {
            rest
        }
    }
}

/// The least of the top rows of some areas.
pub open spec fn least_y(areas: Seq<(usize, Rect)>) -> int
    decreases areas.len(),
{
    if areas.len() <= 1 {
        areas[0].1.y as int
    } else {
        let rest = least_y(areas.drop_last());
        if (areas.last().1.y as int) < rest {
            areas.last().1.y as int
        } else {
            rest
        }
    }
}

/// The greatest of the columns behind some areas.
pub open spec fn greatest_right(areas: Seq<(usize, Rect)>) -> int
    decreases areas.len(),
{
    if areas.len() <= 1 {
        areas[0].1.right_of()
    } else {
        let rest = greatest_right(areas.drop_last());
        if areas.last().1.right_of() > rest {
            areas.last().1.right_of()
        } else {
            rest
        }
    }
}

/// The greatest of the rows behind some areas.
pub open spec fn greatest_bottom(areas: Seq<(usize, Rect)>) -> int
    decreases areas.len(),
{
    if areas.len() <= 1 {
        areas[0].1.bottom_of()
    } else {
        let rest = greatest_bottom(areas.drop_last());
        if areas.last().1.bottom_of() > rest {
            areas.last().1.bottom_of()
        } else {
            rest
        }
    }
}

/// The least area that some areas lie in, where there are any.
pub open spec fn bounds_of(areas: Seq<(usize, Rect)>) -> Option<Rect> {
    if areas.len() == 0 {
        None
    } else {
        Some(
            Rect {
                x: least_x(areas) as u16,
                y: least_y(areas) as u16,
                width: (greatest_right(areas) - least_x(areas)) as u16,
                height: (greatest_bottom(areas) - least_y(areas)) as u16,
            },
        )
    }
}

/// Finds the least area that some areas lie in.
pub fn bounding_rect(areas: &Vec<(usize, Rect)>) -> (r: Option<Rect>)
    ensures
        r == bounds_of(areas@),
{
    if areas.len() == 0 {
        return None;
    }
    let first = areas[0].1;
    let mut left: u16 = first.x;
    let mut top: u16 = first.y;
    let mut right: u16 = first.right();
    let mut bottom: u16 = first.bottom();
    let mut i: usize = 1;
    assert(areas@.take(1)[0] == areas@[0]);
    while i < areas.len()
        invariant
            0 < i <= areas@.len(),
            left == least_x(areas@.take(i as int)),
            top == least_y(areas@.take(i as int)),
            right == greatest_right(areas@.take(i as int)),
            bottom == greatest_bottom(areas@.take(i as int)),
            left <= right,
            top <= bottom,
        decreases areas@.len() - i,
    {
        assert(areas@.take(i + 1).drop_last() =~= areas@.take(i as int));
        assert(areas@.take(i + 1).last() == areas@[i as int]);
        let area = areas[i].1;
        if area.x < left {
            left = area.x;
        }
        if area.y < top {
            top = area.y;
        }
        if area.right() > right {
            right = area.right();
        }
        if area.bottom() > bottom {
            bottom = area.bottom();
        }
        i = i + 1;
    }
    assert(areas@.take(i as int) =~= areas@);
    Some(Rect { x: left, y: top, width: right - left, height: bottom - top })
}

/// The cell in the middle of an area.
pub open spec fn center_of(area: Rect) -> (int, int) {
    (
        bounded(area.x as int, area.width as int / 2),
        bounded(area.y as int, area.height as int / 2),
    )
}

/// Finds the cell in the middle of an area.
pub fn rect_center(area: Rect) -> (r: (u16, u16))
    ensures
        (r.0 as int, r.1 as int) == center_of(area),
{
    (bounded_sum(area.x, area.width / 2), bounded_sum(area.y, area.height / 2))
}

/// A direction to move the focus in.
#[derive(Clone, Copy, Debug, PartialEq, Eq, Structural)]
pub enum FocusDirection {
    Left,
    Right,
    Up,
    Down,
}

/// The distance between two numbers.
pub open spec fn distance(a: int, b: int) -> int {
    if a < b {
        b - a
    } else {
        a - b
    }
}

/// How far an area lies in a direction, where it does: what counts first is the distance in the
/// direction, and then the distance across it.
pub open spec fn focus_score(from: Rect, to: Rect, direction: FocusDirection) -> Option<int> {
    let a = center_of(from);
    let b = center_of(to);
    let ahead = match direction {
        FocusDirection::Left => a.0 - b.0,
        FocusDirection::Right => b.0 - a.0,
        FocusDirection::Up => a.1 - b.1,
        FocusDirection::Down => b.1 - a.1,
    };
    let across = match direction {
        FocusDirection::Left | FocusDirection::Right => distance(a.1, b.1),
        FocusDirection::Up | FocusDirection::Down => distance(a.0, b.0),
    };
    if ahead > 0 {
        Some(ahead * 10_000 + across)
    } else {
        None
    }
}

/// The area of a view: its first area among those given.
pub open spec fn area_of(areas: Seq<(usize, Rect)>, view: usize) -> Option<Rect>
    decreases areas.len(),
{
    if areas.len() == 0 {
        None
    } else {
        match area_of(areas.drop_last(), view) {
            Some(area) => Some(area),
            None => if areas.last().0 == view {
                Some(areas.last().1)
            } else {
                None
            },
        }
    }
}

/// The other view that lies nearest in a direction, with how far it lies; the first of those
/// that lie equally far.
pub open spec fn nearest_view(
    areas: Seq<(usize, Rect)>,
    active: usize,
    from: Rect,
    direction: FocusDirection,
) -> Option<(usize, int)>
    decreases areas.len(),
{
    if areas.len() == 0 {
        None
    } else {
        let best = nearest_view(areas.drop_last(), active, from, direction);
        let (view, area) = areas.last();
        match (best, focus_score(from, area, direction)) {
            (best, None) => best,
            (None, Some(score)) => if view != active {
                Some((view, score))
            } else {
                None
            },
            (Some((other, least)), Some(score)) => if view != active && score < least {
                Some((view, score))
            } else {
                Some((other, least))
            },
        }
    }
}

/// Finds the area of a view.
pub fn find_area(areas: &Vec<(usize, Rect)>, view: usize) -> (r: Option<Rect>)
    ensures
        r == area_of(areas@, view),
{
    let mut r: Option<Rect> = None;
    let mut i: usize = 0;
    while i < areas.len()
        invariant
            i <= areas@.len(),
            r == area_of(areas@.take(i as int), view),
        decreases areas@.len() - i,
    {
        assert(areas@.take(i + 1).drop_last() =~= areas@.take(i as int));
        if r.is_none() && areas[i].0 == view {
            r = Some(areas[i].1);
        }
        i = i + 1;
    }
    assert(areas@.take(i as int) =~= areas@);
    r
}

fn score_focus(from: Rect, to: Rect, direction: FocusDirection) -> (r: Option<u32>)
    ensures
        match r {
            Some(score) => focus_score(from, to, direction) == Some(score as int),
            None => focus_score(from, to, direction) is None,
        },
{
    let a = rect_center(from);
    let b = rect_center(to);
    let (a_ahead, b_ahead, a_across, b_across) = match direction {
        FocusDirection::Left => (b.0, a.0, a.1, b.1),
        FocusDirection::Right => (a.0, b.0, a.1, b.1),
        FocusDirection::Up => (b.1, a.1, a.0, b.0),
        FocusDirection::Down => (a.1, b.1, a.0, b.0),
    };
    if b_ahead <= a_ahead {
        return None;
    }
    let ahead: u32 = (b_ahead - a_ahead) as u32;
    let across: u32 = if a_across < b_across {
        (b_across - a_across) as u32
    } else {
        (a_across - b_across) as u32
    };
    Some(ahead * 10_000 + across)
}

/// Finds the other view that lies nearest in a direction.
pub fn find_nearest_view(
    areas: &Vec<(usize, Rect)>,
    active: usize,
    from: Rect,
    direction: FocusDirection,
) -> (r: Option<usize>)
    ensures
        match r {
            Some(view) => nearest_view(areas@, active, from, direction) matches Some(best)
                && best.0 == view,
            None => nearest_view(areas@, active, from, direction) is None,
        },
{
    let mut best: Option<(usize, u32)> = None;
    let mut i: usize = 0;
    while i < areas.len()
        invariant
            i <= areas@.len(),
            match best {
                Some((view, score)) => nearest_view(
                    areas@.take(i as int),
                    active,
                    from,
                    direction,
                ) == Some((view, score as int)),
                None => nearest_view(areas@.take(i as int), active, from, direction) is None,
            },
        decreases areas@.len() - i,
    {
        assert(areas@.take(i + 1).drop_last() =~= areas@.take(i as int));
        let (view, area) = areas[i];
        if let Some(score) = score_focus(from, area, direction) {
            let nearer = match best {
                Some((_, least)) => score < least,
                None => true,
            };
            if view != active && nearer {
                best = Some((view, score));
            }
        }
        i = i + 1;
    }
    assert(areas@.take(i as int) =~= areas@);
    match best {
        Some((view, _)) => Some(view),
        None => None,
    }
}

/// The first of some areas that a cell lies in, by its view.
pub open spec fn view_at(areas: Seq<(usize, Rect)>, column: u16, row: u16) -> Option<usize>
    decreases areas.len(),
{
    if areas.len() == 0 {
        None
    } else {
        match view_at(areas.drop_last(), column, row) {
            Some(view) => Some(view),
            None => if areas.last().1.holds(column, row) {
                Some(areas.last().0)
            } else {
                None
            },
        }
    }
}

/// Finds the view that a cell lies in.
pub fn find_view_at(areas: &Vec<(usize, Rect)>, column: u16, row: u16) -> (r: Option<usize>)
    ensures
        r == view_at(areas@, column, row),
{
    let mut r: Option<usize> = None;
    let mut i: usize = 0;
    while i < areas.len()
        invariant
            i <= areas@.len(),
            r == view_at(areas@.take(i as int), column, row),
        decreases areas@.len() - i,
    {
        assert(areas@.take(i + 1).drop_last() =~= areas@.take(i as int));
        if r.is_none() && areas[i].1.contains(column, row) {
            r = Some(areas[i].0);
        }
        i = i + 1;
    }
    assert(areas@.take(i as int) =~= areas@);
    r
}

/// Whether every area is one of the first `count` views.
pub open spec fn panes_below(areas: Seq<(usize, Rect)>, count: int) -> bool {
    forall|i: int| 0 <= i < areas.len() ==> (#[trigger] areas[i]).0 < count
}

/// Focus only moves to a view that has an area.
pub proof fn lemma_focus_has_area(
    areas: Seq<(usize, Rect)>,
    active: usize,
    from: Rect,
    direction: FocusDirection,
    column: u16,
    row: u16,
    count: int,
)
    requires
        panes_below(areas, count),
    ensures
        nearest_view(areas, active, from, direction) matches Some(best) ==> best.0 < count
            && best.0 != active,
        view_at(areas, column, row) matches Some(view) ==> view < count,
    decreases areas.len(),
{
    if areas.len() > 0 {
        assert(panes_below(areas.drop_last(), count)) by {
            assert forall|i: int| 0 <= i < areas.drop_last().len() implies (
            #[trigger] areas.drop_last()[i]).0 < count by {
                assert(areas[i].0 < count);
            }
        }
        lemma_focus_has_area(areas.drop_last(), active, from, direction, column, row, count);
        assert(areas[areas.len() - 1].0 < count);
    }
}

/// A resize leaves a layout showable.
pub proof fn lemma_resize_at_fits(
    layout: ViewLayout,
    way: Seq<bool>,
    area: Rect,
    first_size: u16,
    active_in_first: bool,
    delta: int,
    minimum: u16,
    count: int,
)
    requires
        layout_fits(layout, count),
    ensures
        ({
            let (result, after) = resize_at(
                layout,
                way,
                area,
                first_size,
                active_in_first,
                delta,
                minimum,
            );
            &&& layout_fits(after, count)
            &&& leaves(after) == leaves(layout)
            &&& !(result is Done) ==> after == layout
        }),
{
    match at_way(layout, way) {
        Some(ViewLayout::Split { direction, .. }) => {
            let total = size_along(direction, area);
            let change = if active_in_first {
                delta
            } else {
                -delta
            };
            let ratio = changed_ratio(total as int, first_size as int, change, minimum as int);
            lemma_with_ratio(layout, way, ratio as u16, count);
        },
        _ => {},
    }
}

/// The views of a layout that can be shown with `count` views are among them.
pub proof fn lemma_leaves_fit(layout: ViewLayout, count: int)
    requires
        indices_fit(layout, count),
    ensures
        forall|i: int| 0 <= i < leaves(layout).len() ==> (#[trigger] leaves(layout)[i]) < count,
    decreases layout,
{
    match layout {
        ViewLayout::Pane { index } => {
            assert(leaves(layout) =~= seq![index]);
        },
        ViewLayout::Split { first, second, .. } => {
            lemma_leaves_fit(*first, count);
            lemma_leaves_fit(*second, count);
            assert(leaves(layout) =~= leaves(*first) + leaves(*second));
        },
    }
}

} // verus!
