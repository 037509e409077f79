//! How the views of a tab are split, sized and focused.
use vstd::prelude::*;
use vstd::string::*;

use crate::actions;
use crate::layout::{self, FocusDirection, Rect, ResizeTarget, Resized, SplitDirection, ViewLayout};
use crate::text;
use crate::tui::{self, App, AppModel};
use crate::view::TabModel;

verus! {

/// What a resize changes.
#[derive(Clone, Copy, Debug, PartialEq, Eq, Structural)]
pub enum ResizeAxis {
    Height,
    Width,
}

/// How much a resize changes.
#[derive(Clone, Copy, Debug, PartialEq, Eq, Structural)]
pub enum ResizeAmount {
    /// To a size.
    Absolute(u16),
    /// By a difference.
    Delta(i16),
}

impl ResizeAxis {
    /// The splits that a resize changes.
    pub open spec fn direction(self) -> SplitDirection {
        match self {
            ResizeAxis::Height => SplitDirection::Horizontal,
            ResizeAxis::Width => SplitDirection::Vertical,
        }
    }

    /// The least size of a view.
    pub open spec fn minimum(self) -> u16 {
        match self {
            ResizeAxis::Height => layout::MIN_VIEW_HEIGHT,
            ResizeAxis::Width => layout::MIN_VIEW_WIDTH,
        }
    }
}

/// How many cells a resize adds to a view of some size.
pub open spec fn difference(amount: ResizeAmount, current: u16) -> int {
    match amount {
        ResizeAmount::Absolute(target) => target - current,
        ResizeAmount::Delta(delta) => delta as int,
    }
}

impl AppModel {
    /// The session with its active tab in another layout.
    pub open spec fn with_layout(self, layout: ViewLayout) -> AppModel {
        self.with_active(TabModel { layout, ..self.active() })
    }

    /// The session with another view of the active tab focused.
    pub open spec fn focusing(self, view: usize) -> AppModel {
        self.with_active(TabModel { active_view: view, ..self.active() }).saying(
            "View "@ + tui::counted(view + 1, " focused"@),
        )
    }

    /// The session with the focus moved in a direction.
    pub open spec fn focus_moved(self, direction: FocusDirection) -> AppModel {
        let active = self.active().active_view;
        match layout::area_of(self.pane_areas, active) {
            Some(from) => match layout::nearest_view(self.pane_areas, active, from, direction) {
                Some((view, _)) => self.focusing(view),
                None => self,
            },
            None => self,
        }
    }

    /// The session with the view focused that a cell lies in.
    pub open spec fn clicked(self, column: u16, row: u16) -> AppModel {
        match layout::view_at(self.pane_areas, column, row) {
            Some(view) => self.focusing(view),
            None => self,
        }
    }

    /// The active tab with its active view split: the new view is a copy of it and becomes the
    /// active one.
    pub open spec fn split_tab(self, direction: SplitDirection) -> TabModel {
        let tab = self.active();
        let new_index = tab.views.len() as usize;
        TabModel {
            views: tab.views.push(tab.active()),
            layout: match layout::with_leaf_split(
                tab.layout,
                tab.active_view,
                new_index,
                direction,
            ) {
                Some(layout) => layout,
                None => tab.layout,
            },
            active_view: new_index,
            ..tab
        }
    }

    /// The session with its active view split.
    #[verifier::opaque]
    pub open spec fn split(self, argument: Option<Seq<char>>) -> AppModel {
        if self.active().is_triage {
            self.saying("E474: Triage views cannot be split"@)
        } else {
            match argument {
                Some(direction) => if direction == "horizontal"@ {
                    self.with_active(self.split_tab(SplitDirection::Horizontal)).saying(
                        "View split horizontally"@,
                    )
                } else if direction == "vertical"@ {
                    self.with_active(self.split_tab(SplitDirection::Vertical)).saying(
                        "View split vertically"@,
                    )
                } else {
                    self.saying("E474: Invalid split direction: "@ + direction)
                },
                None => self.saying("E471: Argument required"@),
            }
        }
    }

    /// The session with all splits of the active tab measured by their views.
    pub open spec fn equalized(self) -> AppModel {
        if self.active().is_triage {
            self.saying("E474: Triage views cannot be resized"@)
        } else {
            self.with_layout(layout::equalized(self.active().layout)).saying(
                "Split views equalized"@,
            )
        }
    }

    /// The session when the split at the end of a way was resized, given the area of the split
    /// and the size of its first part on the screen.
    pub open spec fn resized_at(
        self,
        axis: ResizeAxis,
        delta: int,
        way: Seq<bool>,
        active_in_first: bool,
        area: Rect,
        first_size: u16,
    ) -> AppModel {
        let (result, layout) = layout::resize_at(
            self.active().layout,
            way,
            area,
            first_size,
            active_in_first,
            delta,
            axis.minimum(),
        );
        match result {
            Resized::Done => self.with_layout(layout).saying(
                match axis {
                    ResizeAxis::Height => "Active view height adjusted"@,
                    ResizeAxis::Width => "Active view width adjusted"@,
                },
            ),
            Resized::Invalid => self.saying("E474: Saved split layout is invalid"@),
            Resized::TooSmall => self.saying(
                "Split is too small to keep both views at least "@ + tui::counted(
                    axis.minimum() as int,
                    " cells"@,
                ),
            ),
        }
    }

    /// Whether an area and a size are those of the split at the end of a way and of its first
    /// part on the screen.
    pub open spec fn is_measured(self, way: Seq<bool>, area: Rect, first_size: u16) -> bool {
        match layout::bounds_of(self.pane_areas) {
            Some(root) => {
                &&& layout::is_area_at(self.active().layout, root, way, area)
                &&& layout::may_be_first_at(self.active().layout, way, area, first_size)
            },
            None => false,
        }
    }

    /// Whether a session is one that this one becomes when its active view is resized. How it
    /// is resized depends on how many cells the views have on the screen.
    pub open spec fn may_resize(
        self,
        axis: ResizeAxis,
        amount: ResizeAmount,
        after: AppModel,
    ) -> bool {
        let active = self.active().active_view;
        let way = layout::resize_way(self.active().layout, active, axis.direction());
        let area = layout::area_of(self.pane_areas, active);
        if self.active().is_triage {
            after == self.saying("E474: Triage views cannot be resized"@)
        } else if layout::bounds_of(self.pane_areas) is None {
            after == self.saying("E474: View layout is not available"@)
        } else if way is None {
            after == self.saying(
                match axis {
                    ResizeAxis::Height => "Active view has no resizable horizontal split"@,
                    ResizeAxis::Width => "Active view has no resizable vertical split"@,
                },
            )
        } else if area is None {
            after == self.saying("E474: Active view geometry is not available"@)
        } else {
            let (path, active_in_first) = way->0;
            let delta = difference(amount, layout::size_along(axis.direction(), area->0));
            exists|split: Rect, first_size: u16|
                #![trigger self.is_measured(path, split, first_size)]
                self.is_measured(path, split, first_size) && after == self.resized_at(
                    axis,
                    delta,
                    path,
                    active_in_first,
                    split,
                    first_size,
                )
        }
    }

    /// How the argument of a resize reads: what to change and by how much, or what is wrong
    /// with it.
    pub open spec fn resize_request(argument: Seq<char>) -> Result<
        (ResizeAxis, ResizeAmount),
        Seq<char>,
    > {
        let words = text::words_of(argument);
        if words[0] != "height"@ && words[0] != "width"@ {
            Err("E474: Invalid resize dimension: "@ + words[0])
        } else if words.len() < 2 {
            Err("E471: Resize amount required"@)
        } else if words.len() > 2 {
            Err("E488: Trailing characters: "@ + argument)
        } else {
            match amount_of(words[1]) {
                Some(amount) => Ok(
                    (
                        if words[0] == "height"@ {
                            ResizeAxis::Height
                        } else {
                            ResizeAxis::Width
                        },
                        amount,
                    ),
                ),
                None => Err("E474: Invalid resize amount: "@ + words[1]),
            }
        }
    }

    /// Whether a session is one that this one becomes by a resize command.
    #[verifier::opaque]
    pub open spec fn may_resize_by(self, argument: Option<Seq<char>>, after: AppModel) -> bool {
        if argument is None || argument->0.len() == 0 {
            after == self.saying("E471: Argument required"@)
        } else if argument->0 == "equal"@ {
            after == self.equalized()
        } else {
            match AppModel::resize_request(argument->0) {
                Ok((axis, amount)) => self.may_resize(axis, amount, after),
                Err(message) => after == self.saying(message),
            }
        }
    }
}

/// How an amount reads: a number to set a size to, or one with a sign to change it by. It is
/// never zero.
pub open spec fn amount_of(amount: Seq<char>) -> Option<ResizeAmount> {
    if text::begins_with(amount, "+"@) {
        match text::read_signed(amount.skip(1), i16::MAX as nat) {
            Some(n) => if n != 0 {
                Some(ResizeAmount::Delta(n as i16))
            } else {
                None
            },
            None => None,
        }
    } else if text::begins_with(amount, "-"@) {
        match text::read_signed(amount.skip(1), i16::MAX as nat) {
            Some(n) => if n != 0 && n != i16::MIN {
                Some(ResizeAmount::Delta((-n) as i16))
            } else {
                None
            },
            None => None,
        }
    } else {
        match text::read_unsigned(amount, u16::MAX as nat) {
            Some(n) => if n != 0 {
                Some(ResizeAmount::Absolute(n as u16))
            } else {
                None
            },
            None => None,
        }
    }
}

/// Reads the amount of a resize.
pub fn parse_amount(amount: &str) -> (r: Option<ResizeAmount>)
    ensures
        r == amount_of(amount@),
{
    proof {
        reveal_strlit("+");
        reveal_strlit("-");
    }
    if let Some(value) = text::strip_prefix(amount, "+") {
        return match text::parse_signed(value.as_str(), 32_767) {
            Some(n) => if n != 0 {
                Some(ResizeAmount::Delta(n as i16))
            } else {
                None
            },
            None => None,
        };
    }
    if let Some(value) = text::strip_prefix(amount, "-") {
        return match text::parse_signed(value.as_str(), 32_767) {
            Some(n) => if n != 0 && n != -32_768 {
                Some(ResizeAmount::Delta((-n) as i16))
            } else {
                None
            },
            None => None,
        };
    }
    match text::parse_unsigned(amount, 65_535) {
        Some(n) => if n != 0 {
            Some(ResizeAmount::Absolute(n as u16))
        } else {
            None
        },
        None => None,
    }
}

fn focus_text(view: usize) -> (r: String)
    requires
        view < usize::MAX,
    ensures
        r@ == "View "@ + tui::counted(view + 1, " focused"@),
{
    text::concat("View ", tui::count_text(view + 1, " focused").as_str())
}

impl App {
    /// Whether the areas of views that are remembered are those of views of the active tab.
    pub fn panes_fit(&self) -> (r: bool)
        requires
            self@.is_sound(),
        ensures
            r == self@.panes_fit(),
    {
        let count = self.active_tab().views.len();
        assert(self@.active().views.len() == count);
        let mut i: usize = 0;
        while i < self.pane_areas.len()
            invariant
                i <= self.pane_areas@.len(),
                count == self@.active().views.len(),
                forall|k: int| 0 <= k < i ==> (#[trigger] self.pane_areas@[k]).0 < count,
            decreases self.pane_areas@.len() - i,
        {
            if self.pane_areas[i].0 >= count {
                assert(self@.pane_areas[i as int].0 >= count);
                return false;
            }
            i = i + 1;
        }
        true
    }

    fn focus(&mut self, view: usize)
        requires
            old(self)@.is_sound(),
            view < old(self)@.active().views.len(),
        ensures
            final(self)@ == old(self)@.focusing(view),
            final(self)@.is_sound(),
    {
        let ghost before = self@;
        let ghost after = TabModel { active_view: view, ..before.active() };
        proof {
            assert(before.tabs[before.active_tab as int].is_sound());
            actions::lemma_with_active_sound(before, after);
        }
        let tab = self.active_tab_mut();
        assert(tab.views@.len() == tab@.views.len());
        let count: usize = tab.views.len();
        tab.active_view = view;
        assert(self@ == before.with_active(after));
        self.message = Some(focus_text(view));
    }

    /// Moves the focus to the nearest view in a direction.
    pub fn move_view_focus(&mut self, direction: FocusDirection)
        requires
            old(self)@.is_sound(),
            old(self)@.panes_fit(),
        ensures
            final(self)@ == old(self)@.focus_moved(direction),
            final(self)@.is_sound(),
    {
        let active: usize = self.active_tab().active_view;
        let from = match layout::find_area(&self.pane_areas, active) {
            Some(area) => area,
            None => {
                return;
            },
        };
        if let Some(next) = layout::find_nearest_view(&self.pane_areas, active, from, direction) {
            proof {
                layout::lemma_focus_has_area(
                    self@.pane_areas,
                    active,
                    from,
                    direction,
                    0,
                    0,
                    self@.active().views.len() as int,
                );
            }
            self.focus(next);
        }
    }

    /// Focuses the view that was clicked on with the left button.
    pub fn handle_mouse(&mut self, left_press: bool, column: u16, row: u16)
        requires
            old(self)@.is_sound(),
            old(self)@.panes_fit(),
        ensures
            final(self)@ == (if left_press {
                old(self)@.clicked(column, row)
            } else {
                old(self)@
            }),
            final(self)@.is_sound(),
    {
        if !left_press {
            return;
        }
        if let Some(view) = layout::find_view_at(&self.pane_areas, column, row) {
            proof {
                layout::lemma_focus_has_area(
                    self@.pane_areas,
                    0,
                    Rect { x: 0, y: 0, width: 0, height: 0 },
                    FocusDirection::Left,
                    column,
                    row,
                    self@.active().views.len() as int,
                );
            }
            self.focus(view);
        }
    }

    fn split_active(&mut self, direction: SplitDirection)
        requires
            old(self)@.is_sound(),
            old(self)@.active().views.len() < usize::MAX,
        ensures
            final(self)@ == old(self)@.with_active(old(self)@.split_tab(direction)),
            final(self)@.is_sound(),
    {
        let ghost before = self@;
        let ghost after = before.split_tab(direction);
        proof {
            let tab = before.active();
            assert(before.tabs[before.active_tab as int].is_sound());
            layout::lemma_split_fits(
                tab.layout,
                tab.active_view,
                tab.views.len() as usize,
                direction,
            );
            actions::lemma_with_active_sound(before, after);
        }
        let tab = self.active_tab_mut();
        assert(tab.views@.len() == tab@.views.len());
        let source: usize = tab.active_view;
        let new_index: usize = tab.views.len();
        let copy = tab.views[source].clone();
        let ghost views = tab@.views;
        tab.views.push(copy);
        layout::split_layout_leaf(&mut tab.layout, source, new_index, direction);
        tab.active_view = new_index;
        assert(tab@.views =~= views.push(copy@));
        assert(tab@ =~= after);
    }

    /// Splits the active view.
    pub fn split_view(&mut self, argument: &Option<String>)
        requires
            old(self)@.is_sound(),
            old(self)@.active().views.len() < usize::MAX,
        ensures
            final(self)@ == old(self)@.split(text::view_opt(*argument)),
            final(self)@.is_sound(),
    {
        proof {
            reveal(AppModel::split);
        }
        if self.active_tab().is_triage {
            self.message = Some("E474: Triage views cannot be split".to_owned());
            return;
        }
        match argument {
            Some(direction) => {
                if text::same(direction.as_str(), "horizontal") {
                    self.split_active(SplitDirection::Horizontal);
                    self.message = Some("View split horizontally".to_owned());
                } else if text::same(direction.as_str(), "vertical") {
                    self.split_active(SplitDirection::Vertical);
                    self.message = Some("View split vertically".to_owned());
                } else {
                    self.message =
                    Some(text::concat("E474: Invalid split direction: ", direction.as_str()));
                }
            },
            None => {
                self.message = Some("E471: Argument required".to_owned());
            },
        }
    }

    /// Measures all splits of the active tab by their views.
    pub fn equalize_splits(&mut self)
        requires
            old(self)@.is_sound(),
        ensures
            final(self)@ == old(self)@.equalized(),
            final(self)@.is_sound(),
    {
        let ghost before = self@;
        if self.active_tab().is_triage {
            self.message = Some("E474: Triage views cannot be resized".to_owned());
            return;
        }
        proof {
            let tab = before.active();
            assert(before.tabs[before.active_tab as int].is_sound());
            layout::law_equalize_keeps_arrangement(tab.layout, tab.views.len() as int);
            actions::lemma_with_active_sound(
                before,
                TabModel { layout: layout::equalized(tab.layout), ..tab },
            );
        }
        layout::equalize_layout(&mut self.active_tab_mut().layout);
        self.message = Some("Split views equalized".to_owned());
    }

    fn resize_target(&mut self, axis: ResizeAxis, delta: i32, target: &ResizeTarget)
        requires
            old(self)@.is_sound(),
            -0x10000 < delta < 0x10000,
        ensures
            exists|size: u16|
                #![trigger layout::may_be_first_at(old(self)@.active().layout, target.path@, target.area, size)]
                layout::may_be_first_at(
                    old(self)@.active().layout,
                    target.path@,
                    target.area,
                    size,
                ) && final(self)@ == old(self)@.resized_at(
                    axis,
                    delta as int,
                    target.path@,
                    target.active_in_first,
                    target.area,
                    size,
                ),
            final(self)@.is_sound(),
    {
        let ghost before = self@;
        let minimum: u16 = match axis {
            ResizeAxis::Height => layout::MIN_VIEW_HEIGHT,
            ResizeAxis::Width => layout::MIN_VIEW_WIDTH,
        };
        let ghost tab = before.active();
        let result = layout::resize_layout_split(
            &mut self.active_tab_mut().layout,
            &target.path,
            target.area,
            target.active_in_first,
            delta,
            minimum,
        );
        let ghost new_layout = self@.active().layout;
        let ghost size = choose|size: u16|
            #![trigger layout::may_be_first_at(tab.layout, target.path@, target.area, size)]
            layout::may_be_first_at(tab.layout, target.path@, target.area, size) && (
                result,
                new_layout,
            ) == layout::resize_at(
                tab.layout,
                target.path@,
                target.area,
                size,
                target.active_in_first,
                delta as int,
                minimum,
            );
        proof {
            assert(before.tabs[before.active_tab as int].is_sound());
            layout::lemma_resize_at_fits(
                tab.layout,
                target.path@,
                target.area,
                size,
                target.active_in_first,
                delta as int,
                minimum,
                tab.views.len() as int,
            );
            actions::lemma_with_active_sound(before, TabModel { layout: new_layout, ..tab });
            assert(self@ == before.with_layout(new_layout));
            if !(result is Done) {
                assert(before.with_layout(tab.layout) =~= before);
            }
        }
        self.message =
        Some(
            match result {
                Resized::Done => match axis {
                    ResizeAxis::Height => "Active view height adjusted".to_owned(),
                    ResizeAxis::Width => "Active view width adjusted".to_owned(),
                },
                Resized::Invalid => "E474: Saved split layout is invalid".to_owned(),
                Resized::TooSmall => text::concat(
                    "Split is too small to keep both views at least ",
                    tui::count_text(minimum as usize, " cells").as_str(),
                ),
            },
        );
        assert(self@ == before.resized_at(
            axis,
            delta as int,
            target.path@,
            target.active_in_first,
            target.area,
            size,
        ));
    }

    /// Resizes the active view.
    pub fn resize_active_view(&mut self, axis: ResizeAxis, amount: ResizeAmount)
        requires
            old(self)@.is_sound(),
        ensures
            old(self)@.may_resize(axis, amount, final(self)@),
            final(self)@.is_sound(),
    {
        let ghost before = self@;
        if self.active_tab().is_triage {
            self.message = Some("E474: Triage views cannot be resized".to_owned());
            return;
        }
        let active: usize = self.active_tab().active_view;
        let root = match layout::bounding_rect(&self.pane_areas) {
            Some(root) => root,
            None => {
                self.message = Some("E474: View layout is not available".to_owned());
                return;
            },
        };
        let direction = match axis {
            ResizeAxis::Height => SplitDirection::Horizontal,
            ResizeAxis::Width => SplitDirection::Vertical,
        };
        let target = match layout::nearest_resize_target(
            &self.active_tab().layout,
            root,
            active,
            direction,
        ) {
            Some(target) => target,
            None => {
                self.message =
                Some(
                    match axis {
                        ResizeAxis::Height => "Active view has no resizable horizontal split".to_owned(),
                        ResizeAxis::Width => "Active view has no resizable vertical split".to_owned(),
                    },
                );
                return;
            },
        };
        let area = match layout::find_area(&self.pane_areas, active) {
            Some(area) => area,
            None => {
                self.message = Some("E474: Active view geometry is not available".to_owned());
                return;
            },
        };
        let current: u16 = match axis {
            ResizeAxis::Height => area.height,
            ResizeAxis::Width => area.width,
        };
        let delta: i32 = match amount {
            ResizeAmount::Absolute(size) => size as i32 - current as i32,
            ResizeAmount::Delta(delta) => delta as i32,
        };
        self.resize_target(axis, delta, &target);
        let ghost size = choose|size: u16|
            #![trigger layout::may_be_first_at(before.active().layout, target.path@, target.area, size)]
            layout::may_be_first_at(before.active().layout, target.path@, target.area, size)
                && self@ == before.resized_at(
                axis,
                delta as int,
                target.path@,
                target.active_in_first,
                target.area,
                size,
            );
        assert(before.is_measured(target.path@, target.area, size));
    }

    /// Resizes the active view as a command says.
    pub fn resize_command(&mut self, argument: &Option<String>)
        requires
            old(self)@.is_sound(),
            argument matches Some(words) ==> words@.len() == 0 || text::words_of(words@).len() > 0,
        ensures
            old(self)@.may_resize_by(text::view_opt(*argument), final(self)@),
            final(self)@.is_sound(),
    {
        proof {
            reveal(AppModel::may_resize_by);
        }
        let argument = match argument {
            Some(argument) => if argument.as_str().is_empty() {
                self.message = Some("E471: Argument required".to_owned());
                return;
            } else {
                argument
            },
            None => {
                self.message = Some("E471: Argument required".to_owned());
                return;
            },
        };
        if text::same(argument.as_str(), "equal") {
            self.equalize_splits();
            return;
        }
        let words = text::split_whitespace(argument.as_str());
        let ghost all = text::words_of(argument@);
        assert(all.len() == words@.len());
        assert(all[0] == words@[0]@);
        let axis = if text::same(words[0].as_str(), "height") {
            ResizeAxis::Height
        } else if text::same(words[0].as_str(), "width") {
            ResizeAxis::Width
        } else {
            self.message =
            Some(text::concat("E474: Invalid resize dimension: ", words[0].as_str()));
            return;
        };
        proof {
            reveal_strlit("height");
            reveal_strlit("width");
        }
        if words.len() < 2 {
            self.message = Some("E471: Resize amount required".to_owned());
            return;
        }
        if words.len() > 2 {
            self.message = Some(text::concat("E488: Trailing characters: ", argument.as_str()));
            return;
        }
        assert(all[1] == words@[1]@);
        match parse_amount(words[1].as_str()) {
            Some(amount) => {
                self.resize_active_view(axis, amount);
            },
            None => {
                self.message =
                Some(text::concat("E474: Invalid resize amount: ", words[1].as_str()));
            },
        }
    }
}

} // verus!
