//! Tabs and the list views that they show.
use vstd::prelude::*;
use vstd::string::*;

use crate::cache;
use crate::github::Workflow;
use crate::layout::{self, ViewLayout};
use crate::query::{self, ClauseModel, FilterExpression, Numerals, NumeralsModel, SortModel, SortSpec};
use crate::state::{self, PaneModel, SavedTabModel, ViewPane, ViewTab};
use crate::text;

verus! {

/// What a table shows: the selected row, and the first row on the screen.
#[derive(Clone, Copy, Debug, PartialEq, Eq, Structural)]
pub struct TableState {
    pub selected: Option<usize>,
    pub offset: usize,
}

impl TableState {
    /// A table with another row selected. Without a selection it starts from the top.
    pub open spec fn selecting(self, selected: Option<usize>) -> TableState {
        TableState {
            selected,
            offset: if selected is None {
                0
            } else {
                self.offset
            },
        }
    }

    /// A table with nothing selected.
    pub fn new() -> (r: Self)
        ensures
            r == (TableState { selected: None, offset: 0 }),
    {
        TableState { selected: None, offset: 0 }
    }

    /// The selected row.
    pub fn selected(&self) -> (r: Option<usize>)
        ensures
            r == self.selected,
    {
        self.selected
    }

    /// Selects a row, or none.
    pub fn select(&mut self, selected: Option<usize>)
        ensures
            *final(self) == old(self).selecting(selected),
    {
        self.selected = selected;
        if selected.is_none() {
            self.offset = 0;
        }
    }
}

/// A list of workflows: a subset of all workflows, filtered and sorted.
#[derive(Debug, PartialEq, Eq)]
pub struct ListView {
    pub workflow_ids: Vec<u64>,
    pub table_state: TableState,
    pub filter: Option<String>,
    pub filter_expression: Option<FilterExpression>,
    pub sort: Option<String>,
    pub sort_spec: Option<SortSpec>,
}

/// What a [`ListView`] stands for.
#[verifier::ext_equal]
pub struct ListModel {
    pub workflow_ids: Seq<u64>,
    pub table_state: TableState,
    pub filter: Option<Seq<char>>,
    pub filter_expression: Option<Seq<ClauseModel>>,
    pub sort: Option<Seq<char>>,
    pub sort_spec: Option<SortModel>,
}

/// What an optional filter says.
pub open spec fn expression_view(filter: Option<FilterExpression>) -> Option<Seq<ClauseModel>> {
    match filter {
        Some(filter) => Some(filter@),
        None => None,
    }
}

/// What an optional sort says.
pub open spec fn spec_view(sort: Option<SortSpec>) -> Option<SortModel> {
    match sort {
        Some(sort) => Some(sort@),
        None => None,
    }
}

impl View for ListView {
    type V = ListModel;

    open spec fn view(&self) -> ListModel {
        ListModel {
            workflow_ids: self.workflow_ids@,
            table_state: self.table_state,
            filter: text::view_opt(self.filter),
            filter_expression: expression_view(self.filter_expression),
            sort: text::view_opt(self.sort),
            sort_spec: spec_view(self.sort_spec),
        }
    }
}

/// The filter that an expression gives, where it gives one.
pub open spec fn filter_given(expression: Option<Seq<char>>) -> Option<Seq<ClauseModel>> {
    match expression {
        Some(expression) => match query::filter_of(expression) {
            Ok(filter) => Some(filter),
            Err(_) => None,
        },
        None => None,
    }
}

/// The sort that a specification gives, where it gives one.
pub open spec fn sort_given(specification: Option<Seq<char>>) -> Option<SortModel> {
    match specification {
        Some(specification) => match query::sort_of(specification) {
            Ok(sort) => Some(sort),
            Err(_) => None,
        },
        None => None,
    }
}

impl ListModel {
    /// A view of some workflows with nothing selected.
    pub open spec fn start(
        workflow_ids: Seq<u64>,
        filter: Option<Seq<char>>,
        sort: Option<Seq<char>>,
    ) -> ListModel {
        ListModel {
            workflow_ids,
            table_state: TableState { selected: None, offset: 0 },
            filter,
            filter_expression: filter_given(filter),
            sort,
            sort_spec: sort_given(sort),
        }
    }

    /// The view with another row selected.
    pub open spec fn selecting(self, selected: Option<usize>) -> ListModel {
        ListModel { table_state: self.table_state.selecting(selected), ..self }
    }

    /// The workflows that the view shows.
    pub open spec fn visible(self, workflows: Seq<Workflow>, numerals: NumeralsModel) -> Seq<
        Workflow,
    > {
        query::selection(
            workflows,
            self.filter_expression,
            self.sort_spec,
            numerals,
        ).filter(|workflow: Workflow| self.workflow_ids.contains(workflow.id))
    }

    /// The workflow of the selected row.
    pub open spec fn selected_id(
        self,
        workflows: Seq<Workflow>,
        numerals: NumeralsModel,
    ) -> Option<u64> {
        let visible = self.visible(workflows, numerals);
        match self.table_state.selected {
            Some(i) => if i < visible.len() {
                Some(visible[i as int].id)
            } else {
                None
            },
            None => None,
        }
    }

    /// The row to select: that of a workflow where one is wanted and shown, or else the row
    /// that is selected where there is one, or else the first row.
    pub open spec fn repaired(
        self,
        workflows: Seq<Workflow>,
        numerals: NumeralsModel,
        wanted: Option<u64>,
    ) -> Option<usize> {
        let visible = self.visible(workflows, numerals);
        let row = match wanted {
            Some(id) => row_of(visible, id),
            None => None,
        };
        match (row, self.table_state.selected) {
            (Some(row), _) => Some(row as usize),
            (None, Some(i)) => if i < visible.len() {
                Some(i)
            } else {
                first_row(visible.len())
            },
            (None, None) => first_row(visible.len()),
        }
    }

    /// What is saved of the view.
    pub open spec fn saved(self, workflows: Seq<Workflow>, numerals: NumeralsModel) -> PaneModel {
        PaneModel {
            workflow_ids: self.workflow_ids,
            filter: self.filter,
            sort: self.sort,
            selected_workflow_id: self.selected_id(workflows, numerals),
        }
    }
}

/// The first row, where there are rows.
pub open spec fn first_row(count: nat) -> Option<usize> {
    if count > 0 {
        Some(0)
    } else {
        None
    }
}

/// The row of a workflow: the first one that shows it.
pub open spec fn row_of(visible: Seq<Workflow>, id: u64) -> Option<int>
    decreases visible.len(),
{
    if visible.len() == 0 {
        None
    } else {
        match row_of(visible.drop_last(), id) {
            Some(row) => Some(row),
            None => if visible.last().id == id {
                Some(visible.len() - 1)
            } else {
                None
            },
        }
    }
}

/// What [`row_of`] finds.
pub proof fn lemma_row_of(visible: Seq<Workflow>, id: u64)
    ensures
        match row_of(visible, id) {
            Some(row) => 0 <= row < visible.len() && visible[row].id == id,
            None => forall|i: int| 0 <= i < visible.len() ==> (#[trigger] visible[i]).id != id,
        },
    decreases visible.len(),
{
    if visible.len() > 0 {
        let front = visible.drop_last();
        lemma_row_of(front, id);
        match row_of(visible, id) {
            Some(_) => {},
            None => {
                assert forall|i: int| 0 <= i < visible.len() implies (#[trigger] visible[i]).id
                    != id by {
                    if i < front.len() {
                        assert(front[i].id != id);
                    }
                }
            },
        }
    }
}

/// Finds the row of a workflow.
pub fn find_row(visible: &Vec<&Workflow>, id: u64) -> (r: Option<usize>)
    ensures
        match r {
            Some(row) => row_of(query::pointed(visible@), id) == Some(row as int) && row
                < visible@.len(),
            None => row_of(query::pointed(visible@), id) is None,
        },
{
    let ghost all = query::pointed(visible@);
    let mut r: Option<usize> = None;
    let mut i: usize = 0;
    while i < visible.len()
        invariant
            i <= visible@.len(),
            all == query::pointed(visible@),
            match r {
                Some(row) => row_of(all.take(i as int), id) == Some(row as int) && row < i,
                None => row_of(all.take(i as int), id) is None,
            },
        decreases visible@.len() - i,
    {
        assert(all.take(i + 1).drop_last() =~= all.take(i as int));
        assert(all.take(i + 1).last() == *visible@[i as int]);
        if r.is_none() && visible[i].id == id {
            r = Some(i);
        }
        i = i + 1;
    }
    assert(all.take(i as int) =~= all);
    r
}

impl Clone for ListView {
    fn clone(&self) -> (r: Self)
        ensures
            r@ == self@,
    {
        ListView {
            workflow_ids: state::clone_ids(&self.workflow_ids),
            table_state: self.table_state,
            filter: cache::clone_text(&self.filter),
            filter_expression: match &self.filter_expression {
                Some(filter) => Some(filter.clone()),
                None => None,
            },
            sort: cache::clone_text(&self.sort),
            sort_spec: match &self.sort_spec {
                Some(sort) => Some(sort.clone()),
                None => None,
            },
        }
    }
}

impl ListView {
    /// A view of some workflows with nothing selected.
    pub fn new(workflow_ids: Vec<u64>, filter: Option<String>, sort: Option<String>) -> (r: Self)
        ensures
            r@ == ListModel::start(workflow_ids@, text::view_opt(filter), text::view_opt(sort)),
    {
        let filter_expression = match &filter {
            Some(expression) => match FilterExpression::parse(expression.as_str()) {
                Ok(filter) => Some(filter),
                Err(_) => None,
            },
            None => None,
        };
        let sort_spec = match &sort {
            Some(specification) => match SortSpec::parse(specification.as_str()) {
                Ok(sort) => Some(sort),
                Err(_) => None,
            },
            None => None,
        };
        ListView {
            workflow_ids,
            table_state: TableState::new(),
            filter,
            filter_expression,
            sort,
            sort_spec,
        }
    }

    /// The view that was saved, with nothing selected.
    pub fn from_persisted(view: ViewPane) -> (r: Self)
        ensures
            r@ == ListModel::start(view@.workflow_ids, view@.filter, view@.sort),
    {
        ListView::new(view.workflow_ids, view.filter, view.sort)
    }

    /// The workflows that the view shows.
    pub fn visible_workflows<'a>(&self, workflows: &'a [Workflow], numerals: &Numerals) -> (r: Vec<
        &'a Workflow,
    >)
        ensures
            query::pointed(r@) == self@.visible(workflows@, numerals@),
    {
        let selected = query::select_workflows(
            workflows,
            self.filter_expression.as_ref(),
            self.sort_spec.as_ref(),
            numerals,
        );
        let ghost all = query::pointed(selected@);
        let ghost test = |workflow: Workflow| self@.workflow_ids.contains(workflow.id);
        let mut r: Vec<&'a Workflow> = Vec::new();
        let mut i: usize = 0;
        assert(query::pointed(r@) =~= all.take(0).filter(test)) by {
            reveal(Seq::filter);
        }
        while i < selected.len()
            invariant
                i <= selected@.len(),
                all == query::pointed(selected@),
                test == (|workflow: Workflow| self@.workflow_ids.contains(workflow.id)),
                query::pointed(r@) == all.take(i as int).filter(test),
            decreases selected@.len() - i,
        {
            proof {
                reveal(Seq::filter);
                assert(all.take(i + 1).drop_last() =~= all.take(i as int));
                assert(all.take(i + 1).last() == *selected@[i as int]);
            }
            let ghost before = r@;
            assert(self.workflow_ids@.take(self.workflow_ids@.len() as int) =~= self.workflow_ids@);
            if state::has_id(&self.workflow_ids, self.workflow_ids.len(), selected[i].id) {
                r.push(selected[i]);
                assert(query::pointed(r@) =~= query::pointed(before).push(*selected@[i as int]));
            }
            i = i + 1;
        }
        assert(all.take(i as int) =~= all);
        r
    }

    /// The workflow of the selected row.
    pub fn selected_workflow_id(&self, workflows: &[Workflow], numerals: &Numerals) -> (r: Option<
        u64,
    >)
        ensures
            r == self@.selected_id(workflows@, numerals@),
    {
        let visible = self.visible_workflows(workflows, numerals);
        assert(query::pointed(visible@).len() == visible@.len());
        match self.table_state.selected {
            Some(i) => if i < visible.len() {
                assert(query::pointed(visible@)[i as int] == *visible@[i as int]);
                Some(visible[i].id)
            } else {
                None
            },
            None => None,
        }
    }

    /// Selects the row that [`ListModel::repaired`] tells.
    pub fn repair_selection(
        &mut self,
        workflows: &[Workflow],
        numerals: &Numerals,
        wanted: Option<u64>,
    )
        ensures
            final(self)@ == old(self)@.selecting(
                old(self)@.repaired(workflows@, numerals@, wanted),
            ),
    {
        let visible = self.visible_workflows(workflows, numerals);
        assert(query::pointed(visible@).len() == visible@.len());
        let row = match wanted {
            Some(id) => find_row(&visible, id),
            None => None,
        };
        let first: Option<usize> = if visible.len() > 0 {
            Some(0)
        } else {
            None
        };
        let selection = match (row, self.table_state.selected) {
            (Some(row), _) => Some(row),
            (None, Some(i)) => if i < visible.len() {
                Some(i)
            } else {
                first
            },
            (None, None) => first,
        };
        self.table_state.select(selection);
    }

    /// What is saved of the view.
    pub fn persisted(&self, workflows: &[Workflow], numerals: &Numerals) -> (r: ViewPane)
        ensures
            r@ == self@.saved(workflows@, numerals@),
    {
        ViewPane {
            workflow_ids: state::clone_ids(&self.workflow_ids),
            filter: cache::clone_text(&self.filter),
            sort: cache::clone_text(&self.sort),
            selected_workflow_id: self.selected_workflow_id(workflows, numerals),
        }
    }
}

/// A tab: one or more list views that share the screen.
#[derive(Debug, PartialEq, Eq)]
pub struct Tab {
    pub name: Option<String>,
    pub views: Vec<ListView>,
    pub layout: ViewLayout,
    pub active_view: usize,
    pub is_triage: bool,
}

/// What a [`Tab`] stands for.
#[verifier::ext_equal]
pub struct TabModel {
    pub name: Option<Seq<char>>,
    pub views: Seq<ListModel>,
    pub layout: ViewLayout,
    pub active_view: usize,
    pub is_triage: bool,
}

/// What some list views stand for.
pub open spec fn list_views(views: Seq<ListView>) -> Seq<ListModel> {
    views.map_values(|view: ListView| view@)
}

impl View for Tab {
    type V = TabModel;

    open spec fn view(&self) -> TabModel {
        TabModel {
            name: text::view_opt(self.name),
            views: list_views(self.views@),
            layout: self.layout,
            active_view: self.active_view,
            is_triage: self.is_triage,
        }
    }
}

impl TabModel {
    /// Whether the active view is one of the views, and the layout can be shown.
    pub open spec fn is_sound(self) -> bool {
        self.active_view < self.views.len() && layout::layout_fits(
            self.layout,
            self.views.len() as int,
        )
    }

    /// A tab with one view.
    pub open spec fn start(
        name: Option<Seq<char>>,
        workflow_ids: Seq<u64>,
        filter: Option<Seq<char>>,
        sort: Option<Seq<char>>,
    ) -> TabModel {
        TabModel {
            name,
            views: seq![ListModel::start(workflow_ids, filter, sort)],
            layout: ViewLayout::Pane { index: 0 },
            active_view: 0,
            is_triage: false,
        }
    }

    /// The tab that was saved, with nothing selected.
    pub open spec fn restored(tab: SavedTabModel) -> TabModel {
        TabModel {
            name: tab.name,
            views: tab.views.map_values(
                |view: PaneModel| ListModel::start(view.workflow_ids, view.filter, view.sort),
            ),
            layout: tab.layout,
            active_view: if tab.active_view < tab.views.len() {
                tab.active_view
            } else {
                (tab.views.len() - 1) as usize
            },
            is_triage: false,
        }
    }

    /// The active view.
    pub open spec fn active(self) -> ListModel {
        self.views[self.active_view as int]
    }

    /// The tab with another active view in place of the active one.
    pub open spec fn with_active(self, view: ListModel) -> TabModel {
        TabModel { views: self.views.update(self.active_view as int, view), ..self }
    }

    /// What is saved of the tab.
    pub open spec fn saved(self, workflows: Seq<Workflow>, numerals: NumeralsModel) -> SavedTabModel {
        SavedTabModel {
            name: self.name,
            views: self.views.map_values(|view: ListModel| view.saved(workflows, numerals)),
            layout: self.layout,
            active_view: self.active_view,
        }
    }
}

fn clone_views(views: &Vec<ListView>) -> (r: Vec<ListView>)
    ensures
        list_views(r@) == list_views(views@),
{
    let ghost all = list_views(views@);
    let mut r: Vec<ListView> = Vec::new();
    let mut i: usize = 0;
    while i < views.len()
        invariant
            i <= views@.len(),
            all == list_views(views@),
            list_views(r@) =~= all.take(i as int),
        decreases views@.len() - i,
    {
        let ghost before = r@;
        r.push(views[i].clone());
        assert(list_views(r@) =~= list_views(before).push(all[i as int]));
        i = i + 1;
    }
    assert(all.take(i as int) =~= all);
    r
}

impl Clone for Tab {
    fn clone(&self) -> (r: Self)
        ensures
            r@ == self@,
    {
        Tab {
            name: cache::clone_text(&self.name),
            views: clone_views(&self.views),
            layout: self.layout.clone(),
            active_view: self.active_view,
            is_triage: self.is_triage,
        }
    }
}

impl Tab {
    /// A tab with one view.
    pub fn new(
        name: Option<String>,
        workflow_ids: Vec<u64>,
        filter: Option<String>,
        sort: Option<String>,
    ) -> (r: Self)
        ensures
            r@ == TabModel::start(
                text::view_opt(name),
                workflow_ids@,
                text::view_opt(filter),
                text::view_opt(sort),
            ),
            r@.is_sound(),
    {
        let mut views: Vec<ListView> = Vec::new();
        views.push(ListView::new(workflow_ids, filter, sort));
        assert(list_views(views@) =~= seq![
            ListModel::start(workflow_ids@, text::view_opt(filter), text::view_opt(sort)),
        ]);
        Tab { name, views, layout: ViewLayout::default(), active_view: 0, is_triage: false }
    }

    /// The tab that was saved, with nothing selected.
    pub fn from_view(tab: ViewTab) -> (r: Self)
        requires
            tab@.is_sound(),
        ensures
            r@ == TabModel::restored(tab@),
            r@.is_sound(),
    {
        let ghost saved = tab@;
        let ghost others = tab.additional_views@;
        let ghost wanted = TabModel::restored(saved).views;
        let ViewTab {
            name,
            workflow_ids,
            filter,
            sort,
            selected_workflow_id: _,
            additional_views,
            layout,
            active_view,
        } = tab;
        let mut views: Vec<ListView> = Vec::new();
        views.push(ListView::new(workflow_ids, filter, sort));
        assert(list_views(views@) =~= wanted.take(1));
        let mut i: usize = 0;
        while i < additional_views.len()
            invariant
                i <= additional_views@.len(),
                additional_views@ == others,
                saved.views.len() == others.len() + 1,
                forall|k: int| 0 <= k < others.len() ==> saved.views[k + 1] == #[trigger] others[k]@,
                wanted == saved.views.map_values(
                    |view: PaneModel| ListModel::start(view.workflow_ids, view.filter, view.sort),
                ),
                list_views(views@) =~= wanted.take(i + 1),
                views@.len() == i + 1,
            decreases additional_views@.len() - i,
        {
            let ghost before = views@;
            let view = &additional_views[i];
            views.push(
                ListView::new(
                    state::clone_ids(&view.workflow_ids),
                    cache::clone_text(&view.filter),
                    cache::clone_text(&view.sort),
                ),
            );
            assert(saved.views[i + 1] == others[i as int]@);
            assert(list_views(views@) =~= list_views(before).push(wanted[i + 1]));
            i = i + 1;
        }
        assert(wanted.take(i + 1) =~= wanted);
        let active_view = if active_view < views.len() {
            active_view
        } else {
            views.len() - 1
        };
        Tab { name, views, layout, active_view, is_triage: false }
    }

    /// The active view.
    pub fn active_view(&self) -> (r: &ListView)
        requires
            self@.is_sound(),
        ensures
            r@ == self@.active(),
    {
        &self.views[self.active_view]
    }

    /// The active view, to be changed.
    pub fn active_view_mut(&mut self) -> (r: &mut ListView)
        requires
            old(self)@.is_sound(),
        ensures
            r@ == old(self)@.active(),
            final(self)@ == old(self)@.with_active(final(r)@),
    {
        &mut self.views[self.active_view]
    }

    /// What is saved of the tab.
    pub fn persisted(&self, workflows: &[Workflow], numerals: &Numerals) -> (r: ViewTab)
        requires
            self@.is_sound(),
        ensures
            r@ == self@.saved(workflows@, numerals@),
    {
        let ghost wanted = self@.saved(workflows@, numerals@).views;
        let primary = self.views[0].persisted(workflows, numerals);
        let mut additional_views: Vec<ViewPane> = Vec::new();
        let mut i: usize = 1;
        assert(wanted[0] == primary@);
        assert(state::pane_views(additional_views@) =~= wanted.subrange(1, 1));
        while i < self.views.len()
            invariant
                1 <= i <= self.views@.len(),
                wanted == self@.views.map_values(
                    |view: ListModel| view.saved(workflows@, numerals@),
                ),
                state::pane_views(additional_views@) =~= wanted.subrange(1, i as int),
            decreases self.views@.len() - i,
        {
            let ghost before = additional_views@;
            additional_views.push(self.views[i].persisted(workflows, numerals));
            assert(self@.views[i as int] == self.views@[i as int]@);
            assert(state::pane_views(additional_views@) =~= state::pane_views(before).push(
                wanted[i as int],
            ));
            i = i + 1;
        }
        let r = ViewTab {
            name: cache::clone_text(&self.name),
            workflow_ids: primary.workflow_ids,
            filter: primary.filter,
            sort: primary.sort,
            selected_workflow_id: primary.selected_workflow_id,
            additional_views,
            layout: self.layout.clone(),
            active_view: self.active_view,
        };
        assert(r@.views =~= wanted);
        r
    }
}

} // verus!
