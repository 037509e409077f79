//! How views and tabs of a session are changed.
use vstd::prelude::*;
use vstd::string::*;

use crate::actions;
use crate::query::{self, FilterExpression, SortSpec};
use crate::state;
use crate::text;
use crate::tui::{self, App, AppModel};
use crate::view::{self, ListModel};

verus! {

impl AppModel {
    /// The row that is selected, or the first one.
    pub open spec fn current_row(self) -> int {
        match self.active_view().table_state.selected {
            Some(row) => row as int,
            None => 0,
        }
    }

    /// The session with the selection moved down by some rows, at most to the last row.
    pub open spec fn moved_down(self, amount: int) -> AppModel {
        let count = self.visible().len();
        if count == 0 {
            self
        } else {
            self.selecting(
                Some(
                    (if self.current_row() + amount < count {
                        self.current_row() + amount
                    } else {
                        count - 1
                    }) as usize,
                ),
            )
        }
    }

    /// The session with the selection moved up by some rows, at most to the first row.
    pub open spec fn moved_up(self, amount: int) -> AppModel {
        if self.visible().len() == 0 {
            self
        } else {
            self.selecting(
                Some(
                    (if self.current_row() < amount {
                        0
                    } else {
                        self.current_row() - amount
                    }) as usize,
                ),
            )
        }
    }

    /// The session with the first row selected.
    pub open spec fn at_first(self) -> AppModel {
        if self.visible().len() == 0 {
            self
        } else {
            self.selecting(Some(0))
        }
    }

    /// The session with the last row selected.
    pub open spec fn at_last(self) -> AppModel {
        if self.visible().len() == 0 {
            self
        } else {
            self.selecting(Some((self.visible().len() - 1) as usize))
        }
    }

    /// The workflows of some rows from the selected one on.
    pub open spec fn rows_from(self, row: usize, count: usize) -> Seq<u64> {
        let ids = state::ids_of(self.visible());
        if row >= ids.len() {
            Seq::empty()
        } else {
            ids.subrange(
                row as int,
                if row + count < ids.len() {
                    row + count
                } else {
                    ids.len() as int
                },
            )
        }
    }

    /// The session with some workflows taken out of the active view.
    pub open spec fn without(self, deleted: Seq<u64>) -> AppModel {
        self.with_active_view(
            ListModel {
                workflow_ids: self.active_view().workflow_ids.filter(
                    |id: u64| !deleted.contains(id),
                ),
                ..self.active_view()
            },
        )
    }

    /// The session with some rows deleted from the selected one on.
    #[verifier::opaque]
    pub open spec fn rows_deleted(self, count: usize) -> AppModel {
        match self.active_view().table_state.selected {
            None => self.saying("E749: Empty buffer"@),
            Some(row) => {
                let deleted = self.rows_from(row, count);
                let rest = self.without(deleted);
                let left = rest.visible().len();
                rest.selecting(
                    if left == 0 {
                        None
                    } else if row < left {
                        Some(row)
                    } else {
                        Some((left - 1) as usize)
                    },
                ).saying(
                    if deleted.len() == 1 {
                        "1 workflow deleted"@
                    } else {
                        tui::counted(deleted.len() as int, " workflows deleted"@)
                    },
                )
            },
        }
    }

    /// The session with the first row of the active view selected, where there is one.
    pub open spec fn at_top(self) -> AppModel {
        self.selecting(view::first_row(self.visible().len()))
    }

    /// The session with another filter of the active view.
    #[verifier::opaque]
    pub open spec fn filtered(self, argument: Option<Seq<char>>) -> AppModel {
        if argument is None || argument->0.len() == 0 {
            self.with_active_view(
                ListModel { filter: None, filter_expression: None, ..self.active_view() },
            ).at_top().saying("Filter cleared"@)
        } else {
            match query::filter_of(argument->0) {
                Ok(filter) => self.with_active_view(
                    ListModel {
                        filter: argument,
                        filter_expression: Some(filter),
                        ..self.active_view()
                    },
                ).at_top().saying("Filter: "@ + argument->0),
                Err(error) => self.saying("E474: "@ + error),
            }
        }
    }

    /// The session with another sort of the active view.
    #[verifier::opaque]
    pub open spec fn sorted(self, argument: Option<Seq<char>>) -> AppModel {
        if argument is None || argument->0.len() == 0 {
            self.with_active_view(
                ListModel { sort: None, sort_spec: None, ..self.active_view() },
            ).at_top().saying("Sort cleared"@)
        } else {
            match query::sort_of(argument->0) {
                Ok(sort) => self.with_active_view(
                    ListModel { sort: argument, sort_spec: Some(sort), ..self.active_view() },
                ).at_top().saying("Sort: "@ + argument->0),
                Err(error) => self.saying("E474: "@ + error),
            }
        }
    }
}

fn keep_others(ids: &Vec<u64>, deleted: &Vec<u64>) -> (r: Vec<u64>)
    ensures
        r@ == ids@.filter(|id: u64| !deleted@.contains(id)),
{
    let ghost test = |id: u64| !deleted@.contains(id);
    let mut r: Vec<u64> = Vec::new();
    let mut i: usize = 0;
    assert(r@ =~= ids@.take(0).filter(test)) by {
        reveal(Seq::filter);
    }
    assert(deleted@.take(deleted@.len() as int) =~= deleted@);
    while i < ids.len()
        invariant
            i <= ids@.len(),
            deleted@.take(deleted@.len() as int) == deleted@,
            test == (|id: u64| !deleted@.contains(id)),
            r@ == ids@.take(i as int).filter(test),
        decreases ids@.len() - i,
    {
        proof {
            reveal(Seq::filter);
            assert(ids@.take(i + 1).drop_last() =~= ids@.take(i as int));
        }
        if !state::has_id(deleted, deleted.len(), ids[i]) {
            r.push(ids[i]);
        }
        i = i + 1;
    }
    assert(ids@.take(i as int) =~= ids@);
    r
}

impl App {
    fn visible_count(&self) -> (r: usize)
        requires
            self@.is_sound(),
        ensures
            r == self@.visible().len(),
    {
        let visible = self.visible_workflows();
        assert(query::pointed(visible@).len() == visible@.len());
        visible.len()
    }

    fn select_row(&mut self, row: Option<usize>)
        requires
            old(self)@.is_sound(),
        ensures
            final(self)@ == old(self)@.selecting(row),
            final(self)@.is_sound(),
    {
        proof {
            actions::lemma_with_view_sound(self@, self@.active_view().selecting(row));
        }
        self.active_view_mut().table_state.select(row);
    }

    /// Moves the selection down.
    pub fn select_next(&mut self, amount: usize)
        requires
            old(self)@.is_sound(),
        ensures
            final(self)@ == old(self)@.moved_down(amount as int),
            final(self)@.is_sound(),
    {
        let count = self.visible_count();
        if count == 0 {
            return;
        }
        let current: usize = match self.active_view().table_state.selected() {
            Some(row) => row,
            None => 0,
        };
        let last: usize = count - 1;
        let next: usize = if current >= last || amount >= last - current {
            last
        } else {
            current + amount
        };
        self.select_row(Some(next));
    }

    /// Moves the selection up.
    pub fn select_previous(&mut self, amount: usize)
        requires
            old(self)@.is_sound(),
        ensures
            final(self)@ == old(self)@.moved_up(amount as int),
            final(self)@.is_sound(),
    {
        if self.visible_count() == 0 {
            return;
        }
        let current: usize = match self.active_view().table_state.selected() {
            Some(row) => row,
            None => 0,
        };
        let next: usize = if current < amount {
            0
        } else {
            current - amount
        };
        self.select_row(Some(next));
    }

    /// Selects the first row.
    pub fn select_first(&mut self)
        requires
            old(self)@.is_sound(),
        ensures
            final(self)@ == old(self)@.at_first(),
            final(self)@.is_sound(),
    {
        if self.visible_count() > 0 {
            self.select_row(Some(0));
        }
    }

    /// Selects the last row.
    pub fn select_last(&mut self)
        requires
            old(self)@.is_sound(),
        ensures
            final(self)@ == old(self)@.at_last(),
            final(self)@.is_sound(),
    {
        let count = self.visible_count();
        if count > 0 {
            self.select_row(Some(count - 1));
        }
    }

    fn ids_from(&self, row: usize, count: usize) -> (r: Vec<u64>)
        requires
            self@.is_sound(),
        ensures
            r@ == self@.rows_from(row, count),
    {
        let visible = self.visible_workflows();
        let ghost all = state::ids_of(self@.visible());
        assert(query::pointed(visible@).len() == visible@.len());
        let mut r: Vec<u64> = Vec::new();
        if row >= visible.len() {
            return r;
        }
        let end: usize = if count < visible.len() - row {
            row + count
        } else {
            visible.len()
        };
        let mut i: usize = row;
        while i < end
            invariant
                row <= i <= end <= visible@.len(),
                query::pointed(visible@) == self@.visible(),
                all == state::ids_of(self@.visible()),
                visible@.len() == all.len(),
                r@ =~= all.subrange(row as int, i as int),
            decreases end - i,
        {
            assert(query::pointed(visible@)[i as int] == *visible@[i as int]);
            r.push(visible[i].id);
            i = i + 1;
        }
        r
    }

    /// Deletes rows from the active view.
    pub fn delete_rows(&mut self, count: usize)
        requires
            old(self)@.is_sound(),
        ensures
            final(self)@ == old(self)@.rows_deleted(count),
            final(self)@.is_sound(),
    {
        proof {
            reveal(AppModel::rows_deleted);
        }
        let ghost before = self@;
        let row: usize = match self.active_view().table_state.selected() {
            Some(row) => row,
            None => {
                self.message = Some("E749: Empty buffer".to_owned());
                return;
            },
        };
        let deleted = self.ids_from(row, count);
        let kept = keep_others(&self.active_view().workflow_ids, &deleted);
        proof {
            actions::lemma_with_view_sound(
                before,
                ListModel { workflow_ids: kept@, ..before.active_view() },
            );
        }
        self.active_view_mut().workflow_ids = kept;
        assert(self@ == before.without(deleted@));
        let left = self.visible_count();
        let next: Option<usize> = if left == 0 {
            None
        } else if row < left {
            Some(row)
        } else {
            Some(left - 1)
        };
        self.select_row(next);
        self.message =
        Some(
            if deleted.len() == 1 {
                "1 workflow deleted".to_owned()
            } else {
                tui::count_text(deleted.len(), " workflows deleted")
            },
        );
    }

    fn reset_visible_selection(&mut self)
        requires
            old(self)@.is_sound(),
        ensures
            final(self)@ == old(self)@.at_top(),
            final(self)@.is_sound(),
    {
        let first: Option<usize> = if self.visible_count() > 0 {
            Some(0)
        } else {
            None
        };
        self.select_row(first);
    }

    /// Filters the active view.
    pub fn set_filter(&mut self, argument: &Option<String>)
        requires
            old(self)@.is_sound(),
        ensures
            final(self)@ == old(self)@.filtered(text::view_opt(*argument)),
            final(self)@.is_sound(),
    {
        proof {
            reveal(AppModel::filtered);
        }
        let ghost before = self@;
        if let Some(expression) = argument {
            if !expression.as_str().is_empty() {
                match FilterExpression::parse(expression.as_str()) {
                    Ok(filter) => {
                        let ghost view = ListModel {
                            filter: Some(expression@),
                            filter_expression: Some(filter@),
                            ..before.active_view()
                        };
                        proof {
                            actions::lemma_with_view_sound(before, view);
                        }
                        let list = self.active_view_mut();
                        list.filter = Some(expression.clone());
                        list.filter_expression = Some(filter);
                        assert(self@ == before.with_active_view(view));
                        self.reset_visible_selection();
                        self.message = Some(text::concat("Filter: ", expression.as_str()));
                    },
                    Err(error) => {
                        self.message = Some(text::concat("E474: ", error.as_str()));
                    },
                }
                return;
            }
        }
        let ghost view = ListModel {
            filter: None,
            filter_expression: None,
            ..before.active_view()
        };
        proof {
            actions::lemma_with_view_sound(before, view);
        }
        let list = self.active_view_mut();
        list.filter = None;
        list.filter_expression = None;
        assert(self@ == before.with_active_view(view));
        self.reset_visible_selection();
        self.message = Some("Filter cleared".to_owned());
    }

    /// Sorts the active view.
    pub fn set_sort(&mut self, argument: &Option<String>)
        requires
            old(self)@.is_sound(),
        ensures
            final(self)@ == old(self)@.sorted(text::view_opt(*argument)),
            final(self)@.is_sound(),
    {
        proof {
            reveal(AppModel::sorted);
        }
        let ghost before = self@;
        if let Some(specification) = argument {
            if !specification.as_str().is_empty() {
                match SortSpec::parse(specification.as_str()) {
                    Ok(sort) => {
                        let ghost view = ListModel {
                            sort: Some(specification@),
                            sort_spec: Some(sort@),
                            ..before.active_view()
                        };
                        proof {
                            actions::lemma_with_view_sound(before, view);
                        }
                        let list = self.active_view_mut();
                        list.sort = Some(specification.clone());
                        list.sort_spec = Some(sort);
                        assert(self@ == before.with_active_view(view));
                        self.reset_visible_selection();
                        self.message = Some(text::concat("Sort: ", specification.as_str()));
                    },
                    Err(error) => {
                        self.message = Some(text::concat("E474: ", error.as_str()));
                    },
                }
                return;
            }
        }
        let ghost view = ListModel { sort: None, sort_spec: None, ..before.active_view() };
        proof {
            actions::lemma_with_view_sound(before, view);
        }
        let list = self.active_view_mut();
        list.sort = None;
        list.sort_spec = None;
        assert(self@ == before.with_active_view(view));
        self.reset_visible_selection();
        self.message = Some("Sort cleared".to_owned());
    }
}

} // verus!
