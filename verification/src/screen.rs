//! What a session shows.
use vstd::prelude::*;
use vstd::string::*;

use crate::actions;
use crate::github::{RunCounts, RunMetrics, RunStatus, Workflow};
use crate::layout::{self, Rect};
use crate::query;
use crate::report::{self, LineModel, Text};
use crate::text;
use crate::tui::{self, App, AppModel, LoadKind, Mode};
use crate::view::ListModel;

verus! {

broadcast use crate::text::lemma_views_push;

/// Whether the status of a workflow in progress is shown at some time, or hidden: the two take
/// turns.
pub open spec fn flashes(elapsed: u64) -> bool {
    (elapsed / tui::STATUS_FLASH_INTERVAL) % 2 == 0
}

/// Tells whether the status of a workflow in progress is shown, some milliseconds after the
/// start.
pub fn flash_visible(elapsed: u64) -> (r: bool)
    ensures
        r == flashes(elapsed),
{
    (elapsed / tui::STATUS_FLASH_INTERVAL) % 2 == 0
}

/// The sign of the status of a workflow.
pub open spec fn status_sign(workflow: Workflow, flash_visible: bool) -> Seq<char> {
    if workflow.is_in_progress && !flash_visible {
        ""@
    } else {
        match workflow.run_status {
            RunStatus::Success => "🟢"@,
            RunStatus::Failure => "🔴"@,
            RunStatus::Other => "⚪"@,
        }
    }
}

/// The sign of the status of a workflow.
pub fn status_indicator(workflow: &Workflow, flash_visible: bool) -> (r: &'static str)
    ensures
        r@ == status_sign(*workflow, flash_visible),
{
    if workflow.is_in_progress && !flash_visible {
        return "";
    }
    match workflow.run_status {
        RunStatus::Success => "🟢",
        RunStatus::Failure => "🔴",
        RunStatus::Other => "⚪",
    }
}

/// How good a pass rate is.
#[derive(Clone, Copy, Debug, PartialEq, Eq, Structural)]
pub enum RateBand {
    /// Below seventy percent, also where no run has completed.
    Low,
    /// Below ninety percent.
    Middle,
    /// Ninety percent or higher.
    High,
}

/// How good the pass rate of some runs is.
pub open spec fn band_of(counts: RunCounts) -> RateBand {
    if counts.total == 0 || 100 * counts.passed < 70 * counts.total {
        RateBand::Low
    } else if 100 * counts.passed < 90 * counts.total {
        RateBand::Middle
    } else {
        RateBand::High
    }
}

/// Tells how good the pass rate of some runs is.
pub fn metrics_band(counts: RunCounts) -> (r: RateBand)
    ensures
        r == band_of(counts),
{
    let passed: u64 = 100 * counts.passed as u64;
    let total: u64 = counts.total as u64;
    if total == 0 || passed < 70 * total {
        RateBand::Low
    } else if passed < 90 * total {
        RateBand::Middle
    } else {
        RateBand::High
    }
}

/// A row of a list.
#[derive(Debug, PartialEq, Eq)]
pub enum ListRow {
    /// A workflow of which nothing is known yet.
    Loading { name: String },
    /// A workflow with its status.
    Ready { status: &'static str, name: String, metrics: RunMetrics },
}

/// What a [`ListRow`] shows.
pub enum RowModel {
    Loading { name: Seq<char> },
    Ready { status: Seq<char>, name: Seq<char>, metrics: RunMetrics },
}

impl View for ListRow {
    type V = RowModel;

    open spec fn view(&self) -> RowModel {
        match self {
            ListRow::Loading { name } => RowModel::Loading { name: name@ },
            ListRow::Ready { status, name, metrics } => RowModel::Ready {
                status: status@,
                name: name@,
                metrics: *metrics,
            },
        }
    }
}

/// What some rows show.
pub open spec fn row_views(rows: Seq<ListRow>) -> Seq<RowModel> {
    rows.map_values(|row: ListRow| row@)
}

/// What a list holds.
#[derive(Debug, PartialEq, Eq)]
pub enum ListContents {
    /// A message in place of rows.
    Message(&'static str),
    Rows(Vec<ListRow>),
}

/// What [`ListContents`] show.
pub enum ContentsModel {
    Message(Seq<char>),
    Rows(Seq<RowModel>),
}

impl View for ListContents {
    type V = ContentsModel;

    open spec fn view(&self) -> ContentsModel {
        match self {
            ListContents::Message(message) => ContentsModel::Message(message@),
            ListContents::Rows(rows) => ContentsModel::Rows(row_views(rows@)),
        }
    }
}

/// The row of a workflow.
pub open spec fn row_for(workflow: Workflow, loading_ids: Seq<u64>, flash: bool) -> RowModel {
    if loading_ids.contains(workflow.id) {
        RowModel::Loading { name: workflow.name@ }
    } else {
        RowModel::Ready {
            status: status_sign(workflow, flash),
            name: workflow.name@,
            metrics: workflow.run_metrics,
        }
    }
}

/// What a list of workflows holds.
pub open spec fn contents_of(
    workflows: Seq<Workflow>,
    loading_ids: Seq<u64>,
    loading: bool,
    is_filtered: bool,
    flash: bool,
) -> ContentsModel {
    if workflows.len() > 0 {
        ContentsModel::Rows(
            workflows.map_values(|workflow: Workflow| row_for(workflow, loading_ids, flash)),
        )
    } else if loading {
        ContentsModel::Message("Loading GitHub Actions workflows..."@)
    } else if is_filtered {
        ContentsModel::Message("No workflows match this view's filter."@)
    } else {
        ContentsModel::Message("This view has no active GitHub Actions workflows."@)
    }
}

fn has(ids: &Vec<u64>, id: u64) -> (r: bool)
    ensures
        r == ids@.contains(id),
{
    assert(ids@.take(ids@.len() as int) =~= ids@);
    crate::state::has_id(ids, ids.len(), id)
}

/// Puts together what a list of workflows holds.
pub fn list_contents(
    workflows: &Vec<&Workflow>,
    loading_ids: &Vec<u64>,
    loading: bool,
    is_filtered: bool,
    flash: bool,
) -> (r: ListContents)
    ensures
        r@ == contents_of(
            query::pointed(workflows@),
            loading_ids@,
            loading,
            is_filtered,
            flash,
        ),
{
    let ghost all = query::pointed(workflows@);
    assert(all.len() == workflows@.len());
    if workflows.len() == 0 {
        return ListContents::Message(
            if loading {
                "Loading GitHub Actions workflows..."
            } else if is_filtered {
                "No workflows match this view's filter."
            } else {
                "This view has no active GitHub Actions workflows."
            },
        );
    }
    let ghost wanted = all.map_values(
        |workflow: Workflow| row_for(workflow, loading_ids@, flash),
    );
    let mut rows: Vec<ListRow> = Vec::new();
    let mut i: usize = 0;
    while i < workflows.len()
        invariant
            i <= workflows@.len(),
            all == query::pointed(workflows@),
            wanted == all.map_values(
                |workflow: Workflow| row_for(workflow, loading_ids@, flash),
            ),
            row_views(rows@) =~= wanted.take(i as int),
        decreases workflows@.len() - i,
    {
        assert(all[i as int] == *workflows@[i as int]);
        let workflow = workflows[i];
        let ghost before = rows@;
        let row = if has(loading_ids, workflow.id) {
            ListRow::Loading { name: workflow.name.clone() }
        } else {
            ListRow::Ready {
                status: status_indicator(workflow, flash),
                name: workflow.name.clone(),
                metrics: workflow.run_metrics,
            }
        };
        rows.push(row);
        assert(row_views(rows@) =~= row_views(before).push(row@));
        i = i + 1;
    }
    assert(wanted.take(i as int) =~= wanted);
    ListContents::Rows(rows)
}

/// A list on the screen.
#[derive(Debug, PartialEq, Eq)]
pub struct Pane {
    pub view: usize,
    pub area: Rect,
    pub title: String,
    pub active: bool,
    pub contents: ListContents,
}

/// What a [`Pane`] shows.
pub struct PaneShown {
    pub view: usize,
    pub area: Rect,
    pub title: Seq<char>,
    pub active: bool,
    pub contents: ContentsModel,
}

impl View for Pane {
    type V = PaneShown;

    open spec fn view(&self) -> PaneShown {
        PaneShown {
            view: self.view,
            area: self.area,
            title: self.title@,
            active: self.active,
            contents: self.contents@,
        }
    }
}

/// A panel with what was found out about a workflow.
#[derive(Debug, PartialEq, Eq)]
pub struct Panel {
    pub area: Rect,
    pub title: String,
    pub text: Text,
    pub selected: bool,
}

/// What a [`Panel`] shows.
pub struct PanelShown {
    pub area: Rect,
    pub title: Seq<char>,
    pub text: Seq<LineModel>,
    pub selected: bool,
}

impl View for Panel {
    type V = PanelShown;

    open spec fn view(&self) -> PanelShown {
        PanelShown {
            area: self.area,
            title: self.title@,
            text: self.text.shown(),
            selected: self.selected,
        }
    }
}

/// What some panes show.
pub open spec fn pane_views(panes: Seq<Pane>) -> Seq<PaneShown> {
    panes.map_values(|pane: Pane| pane@)
}

/// What some panels show.
pub open spec fn panel_views(panels: Seq<Panel>) -> Seq<PanelShown> {
    panels.map_values(|panel: Panel| panel@)
}

/// What fills the screen between the tabs and the status bar.
#[derive(Debug, PartialEq, Eq)]
pub enum Body {
    /// The lists of a tab.
    Lists(Vec<Pane>),
    /// A triage without findings.
    NoTriage { title: String, message: &'static str },
    /// The findings of a triage.
    Triage { summary: Text, summary_area: Rect, panels: Vec<Panel> },
}

/// What a [`Body`] shows.
pub enum BodyModel {
    Lists(Seq<PaneShown>),
    NoTriage { title: Seq<char>, message: Seq<char> },
    Triage { summary: Seq<LineModel>, summary_area: Rect, panels: Seq<PanelShown> },
}

impl View for Body {
    type V = BodyModel;

    open spec fn view(&self) -> BodyModel {
        match self {
            Body::Lists(panes) => BodyModel::Lists(pane_views(panes@)),
            Body::NoTriage { title, message } => BodyModel::NoTriage {
                title: title@,
                message: message@,
            },
            Body::Triage { summary, summary_area, panels } => BodyModel::Triage {
                summary: summary.shown(),
                summary_area: *summary_area,
                panels: panel_views(panels@),
            },
        }
    }
}

/// A text with a blank on either side.
pub open spec fn spaced(t: Seq<char>) -> Seq<char> {
    " "@ + t + " "@
}

fn spaced_text(t: &str) -> (r: String)
    ensures
        r@ == spaced(t@),
{
    let mut r = text::concat(" ", t);
    r.append(" ");
    r
}

impl AppModel {
    /// The titles of the tabs.
    pub open spec fn tab_titles(self) -> Seq<Seq<char>> {
        Seq::new(
            self.tabs.len(),
            |i: int| spaced(AppModel::label(self.tabs[i].name, i)),
        )
    }

    /// What a view shows in an area.
    pub open spec fn pane_shown(self, view: usize, area: Rect, flash: bool) -> PaneShown {
        let list = self.active().views[view as int];
        let workflows = self.shown_by(list);
        PaneShown {
            view,
            area,
            title: spaced(
                self.repository.full_name() + " - "@ + tui::counted(
                    workflows.len() as int,
                    " active workflows"@,
                ),
            ),
            active: view == self.active().active_view,
            contents: contents_of(
                workflows,
                self.loading_status_ids,
                self.pending_load is Some,
                list.filter is Some,
                flash,
            ),
        }
    }

    /// What the views show in their areas.
    pub open spec fn panes_shown(self, flash: bool) -> Seq<PaneShown> {
        self.pane_areas.map_values(|pane: (usize, Rect)| self.pane_shown(pane.0, pane.1, flash))
    }

    /// The workflows of a triage tab from the selected one on.
    pub open spec fn triage_shown(self) -> Seq<Workflow> {
        let visible = self.visible();
        if self.current_row() < visible.len() {
            visible.skip(self.current_row())
        } else {
            Seq::empty()
        }
    }

    /// What is shown of a workflow of a triage tab.
    pub open spec fn findings_of(self, workflow: Workflow) -> Seq<LineModel> {
        report::triage_lines(actions::result_of(self.triage, workflow.id))
    }

    /// The heights of the panels of a triage tab.
    pub open spec fn panel_heights(self, width: u16) -> Seq<u16> {
        self.triage_shown().map_values(
            |workflow: Workflow|
                report::height_of(report::widths_of(self.findings_of(workflow)), width) as u16,
        )
    }

    /// The panels of a triage tab in an area.
    pub open spec fn panels_shown(self, area: Rect, below: int) -> Seq<PanelShown> {
        let areas = report::stacked(area, below, self.panel_heights(area.width));
        Seq::new(
            areas.len(),
            |i: int|
                PanelShown {
                    area: areas[i],
                    title: spaced(self.triage_shown()[i].name@),
                    text: self.findings_of(self.triage_shown()[i]),
                    selected: i == 0,
                },
        )
    }

    /// What fills the screen between the tabs and the status bar.
    pub open spec fn body(self, area: Rect, flash: bool) -> BodyModel {
        if !self.active().is_triage {
            BodyModel::Lists(self.panes_shown(flash))
        } else if self.visible().len() == 0 {
            BodyModel::NoTriage {
                title: spaced(self.repository.full_name()),
                message: if self.triage_running {
                    "Triaging failing workflows..."@
                } else {
                    "No failing scheduled workflows were found."@
                },
            }
        } else {
            let summary = report::correlation_lines(self.visible(), self.triage);
            let height = report::height_of(report::widths_of(summary), area.width) as u16;
            BodyModel::Triage {
                summary,
                summary_area: report::summary_area(area, height),
                panels: self.panels_shown(area, report::below_summary(area, height)),
            }
        }
    }

    /// Whether areas are those that the views of the active tab get in an area.
    pub open spec fn may_arrange(self, area: Rect, areas: Seq<(usize, Rect)>) -> bool {
        if self.active().is_triage {
            areas == seq![(0usize, area)]
        } else {
            layout::are_areas(self.active().layout, area, areas)
        }
    }

    /// What the status bar says in Normal mode: what goes on, and a text.
    pub open spec fn status(self) -> (Seq<char>, Seq<char>) {
        if self.triage_running {
            (" TRIAGING "@, "Analyzing scheduled failures, jobs, steps, and logs..."@)
        } else {
            match self.pending_load {
                Some(pending) => {
                    let refreshes = pending.kind == LoadKind::Refresh;
                    let action = if refreshes {
                        "Refreshing"@
                    } else {
                        "Loading"@
                    };
                    (
                        if refreshes {
                            " REFRESHING "@
                        } else {
                            " LOADING "@
                        },
                        if self.workflows.len() == 0 {
                            action + " workflows for "@ + pending.repository.full_name() + "..."@
                        } else {
                            action + " run status for "@ + pending.repository.full_name()
                                + "... ("@ + text::decimal(self.loaded_status_count as nat) + "/"@
                                + text::decimal(self.workflows.len()) + ")"@
                        },
                    )
                },
                None => (
                    " NORMAL "@,
                    match self.message {
                        Some(message) => message,
                        None => "j/k: select  |  Ctrl-d/Ctrl-u: scroll  |  Ctrl-Tab: next tab  |  :q: quit"@,
                    },
                ),
            }
        }
    }

    /// What the status bar says of refreshes.
    pub open spec fn rate_label(self) -> Seq<char> {
        "refresh: "@ + text::decimal(self.refresh_interval as nat) + "s"@
    }

    /// What the status bar says: what goes on, and a text.
    pub open spec fn bar(self) -> (Seq<char>, Seq<char>) {
        match self.mode {
            Mode::Normal => self.status(),
            Mode::Command => (" COMMAND "@, ":"@ + self.command),
        }
    }

    /// The cells that the refresh rate and the status take of a status bar.
    pub open spec fn suffix(self, width: u16) -> int {
        suffix_cells(self.rate_label(), self.bar().0, width)
    }
}

/// The cells at the right end of the status bar.
pub open spec fn suffix_cells(refresh_rate: Seq<char>, status: Seq<char>, width: u16) -> int {
    let wanted = refresh_rate.len() + status.len() + 2;
    if wanted < width {
        wanted as int
    } else {
        width as int
    }
}

/// Counts the cells at the right end of the status bar.
pub fn suffix_width(refresh_rate: &str, status: &str, width: u16) -> (r: u16)
    ensures
        r == suffix_cells(refresh_rate@, status@, width),
{
    let wanted: u128 = text::chars_of(refresh_rate).len() as u128 + text::chars_of(status).len()
        as u128 + 2;
    if wanted < width as u128 {
        wanted as u16
    } else {
        width
    }
}

/// The column of the cursor of the command line: behind the colon and what stands before the
/// cursor, as far as there is room.
pub open spec fn cursor_of(left: Rect, bar_x: u16, cursor: usize) -> int {
    if left.width == 0 {
        bar_x as int
    } else {
        let wanted = layout::bounded(
            layout::bounded(left.x as int, 1),
            (cursor % 0x10000) as int,
        );
        let last = left.right_of() - 1;
        if wanted < last {
            wanted
        } else {
            last
        }
    }
}

/// Computes the column of the cursor of the command line.
pub fn cursor_column(left: Rect, bar_x: u16, cursor: usize) -> (r: u16)
    ensures
        r == cursor_of(left, bar_x, cursor),
{
    if left.width == 0 {
        return bar_x;
    }
    let wanted = layout::bounded_sum(
        layout::bounded_sum(left.x, 1),
        (cursor % 0x10000) as u16,
    );
    let last: u16 = left.right() - 1;
    if wanted < last {
        wanted
    } else {
        last
    }
}

/// What a session shows.
#[derive(Debug, PartialEq, Eq)]
pub struct Screen {
    pub tabs_area: Rect,
    pub tab_titles: Vec<String>,
    pub active_tab: usize,
    pub body_area: Rect,
    pub body: Body,
    pub bar_area: Rect,
    /// The left part of the status bar, where its text stands.
    pub text_area: Rect,
    pub text: String,
    /// The right part of the status bar, where the refresh rate and the status stand.
    pub suffix_area: Rect,
    pub refresh_rate: String,
    pub status: String,
    /// The column and the row of the cursor of the command line, where that is open.
    pub cursor: Option<(u16, u16)>,
}

impl App {
    /// What the status bar says of refreshes.
    pub fn refresh_rate_label(&self) -> (r: String)
        ensures
            r@ == self@.rate_label(),
    {
        let mut r = text::concat(
            "refresh: ",
            text::number_text(self.refresh_interval).as_str(),
        );
        r.append("s");
        r
    }

    /// What the status bar says in Normal mode: what goes on, and a text.
    pub fn normal_status(&self) -> (r: (&'static str, String))
        ensures
            (r.0@, r.1@) == self@.status(),
    {
        if self.triage_running {
            return (
                " TRIAGING ",
                "Analyzing scheduled failures, jobs, steps, and logs...".to_owned(),
            );
        }
        match &self.pending_load {
            Some(pending) => {
                let (title, action) = match pending.kind {
                    LoadKind::Refresh => (" REFRESHING ", "Refreshing"),
                    _ => (" LOADING ", "Loading"),
                };
                if self.workflows.len() == 0 {
                    let mut text = text::concat(action, " workflows for ");
                    text.append(pending.repository.to_string().as_str());
                    text.append("...");
                    (title, text)
                } else {
                    let mut text = text::concat(action, " run status for ");
                    text.append(pending.repository.to_string().as_str());
                    text.append("... (");
                    text.append(text::number_text(self.loaded_status_count).as_str());
                    text.append("/");
                    text.append(text::number_text(self.workflows.len() as u64).as_str());
                    text.append(")");
                    (title, text)
                }
            },
            None => (
                " NORMAL ",
                match &self.message {
                    Some(message) => message.clone(),
                    None => "j/k: select  |  Ctrl-d/Ctrl-u: scroll  |  Ctrl-Tab: next tab  |  :q: quit".to_owned(),
                },
            ),
        }
    }

    fn titles(&self) -> (r: Vec<String>)
        ensures
            text::views(r@) == self@.tab_titles(),
    {
        let ghost all = self@.tab_titles();
        let mut r: Vec<String> = Vec::new();
        let mut i: usize = 0;
        while i < self.tabs.len()
            invariant
                i <= self.tabs@.len(),
                all == self@.tab_titles(),
                text::views(r@) =~= all.take(i as int),
            decreases self.tabs@.len() - i,
        {
            assert(self@.tabs[i as int] == self.tabs@[i as int]@);
            assert(i < self.tabs.len());
            let label = crate::tabs::label_text(&self.tabs[i].name, i);
            r.push(spaced_text(label.as_str()));
            i = i + 1;
        }
        assert(all.take(i as int) =~= all);
        r
    }

    /// Gives the views of the active tab their areas within an area.
    pub fn arrange(&mut self, area: Rect)
        requires
            old(self)@.is_sound(),
        ensures
            old(self)@.may_arrange(area, final(self)@.pane_areas),
            final(self)@ == (AppModel { pane_areas: final(self)@.pane_areas, ..old(self)@ }),
            final(self)@.is_sound(),
            final(self)@.panes_fit(),
    {
        let ghost before = self@;
        if self.active_tab().is_triage {
            let mut areas: Vec<(usize, Rect)> = Vec::new();
            areas.push((0, area));
            assert(areas@ =~= seq![(0usize, area)]);
            self.pane_areas = areas;
        } else {
            let areas = layout::layout_areas(&self.active_tab().layout, area);
            proof {
                let tab = before.active();
                let views = |pane: (usize, Rect)| pane.0;
                layout::lemma_leaves_fit(tab.layout, tab.views.len() as int);
                assert forall|i: int| 0 <= i < areas@.len() implies (#[trigger] areas@[i]).0
                    < tab.views.len() by {
                    assert(areas@.map_values(views)[i] == areas@[i].0);
                    assert(layout::leaves(tab.layout)[i] == areas@[i].0);
                }
            }
            self.pane_areas = areas;
        }
    }

    fn list_pane(&self, view: usize, area: Rect, flash: bool) -> (r: Pane)
        requires
            self@.is_sound(),
            view < self@.active().views.len(),
        ensures
            r@ == self@.pane_shown(view, area, flash),
    {
        let tab = self.active_tab();
        assert(tab@.views.len() == tab.views@.len());
        assert(tab@.views[view as int] == tab.views@[view as int]@);
        let list = &tab.views[view];
        let workflows = self.visible_workflows_for(list);
        assert(query::pointed(workflows@).len() == workflows@.len());
        let mut title = self.repository.to_string();
        title.append(" - ");
        title.append(tui::count_text(workflows.len(), " active workflows").as_str());
        Pane {
            view,
            area,
            title: spaced_text(title.as_str()),
            active: view == tab.active_view,
            contents: list_contents(
                &workflows,
                &self.loading_status_ids,
                self.is_loading(),
                list.filter.is_some(),
                flash,
            ),
        }
    }

    fn list_panes(&self, flash: bool) -> (r: Vec<Pane>)
        requires
            self@.is_sound(),
            self@.panes_fit(),
        ensures
            pane_views(r@) == self@.panes_shown(flash),
    {
        let ghost all = self@.panes_shown(flash);
        let mut r: Vec<Pane> = Vec::new();
        let mut i: usize = 0;
        while i < self.pane_areas.len()
            invariant
                i <= self.pane_areas@.len(),
                self@.is_sound(),
                self@.panes_fit(),
                all == self@.panes_shown(flash),
                pane_views(r@) =~= all.take(i as int),
            decreases self.pane_areas@.len() - i,
        {
            let (view, area) = self.pane_areas[i];
            assert(self@.pane_areas[i as int].0 < self@.active().views.len());
            let ghost before = r@;
            let pane = self.list_pane(view, area, flash);
            r.push(pane);
            assert(pane_views(r@) =~= pane_views(before).push(pane@));
            i = i + 1;
        }
        assert(all.take(i as int) =~= all);
        r
    }

    fn triage_body(&self, area: Rect) -> (r: Body)
        requires
            self@.is_sound(),
            self@.active().is_triage,
        ensures
            forall|flash: bool| r@ == #[trigger] self@.body(area, flash),
    {
        let visible = actions::copied(&self.visible_workflows());
        if visible.len() == 0 {
            return Body::NoTriage {
                title: spaced_text(self.repository.to_string().as_str()),
                message: if self.triage_running {
                    "Triaging failing workflows..."
                } else {
                    "No failing scheduled workflows were found."
                },
            };
        }
        let selected: usize = match self.active_view().table_state.selected() {
            Some(row) => row,
            None => 0,
        };
        let summary = report::triage_correlation_summary(&visible, &self.triage);
        let summary_height = report::triage_block_height(&summary, area.width);
        let ghost shown = self@.triage_shown();
        let ghost heights_wanted = self@.panel_heights(area.width);
        let mut texts: Vec<Text> = Vec::new();
        let mut heights: Vec<u16> = Vec::new();
        let start: usize = if selected < visible.len() {
            selected
        } else {
            visible.len()
        };
        let mut i: usize = start;
        while i < visible.len()
            invariant
                start <= i <= visible@.len(),
                visible@ == self@.visible(),
                shown == self@.triage_shown(),
                shown == visible@.skip(start as int),
                heights_wanted == self@.panel_heights(area.width),
                texts@.len() == i - start,
                forall|k: int|
                    0 <= k < texts@.len() ==> (#[trigger] texts@[k]).shown() == self@.findings_of(
                        shown[k],
                    ),
                heights@ =~= heights_wanted.take(i - start),
            decreases visible@.len() - i,
        {
            let text = report::triage_text(self.triage_of(visible[i].id));
            let ghost k = i - start;
            assert(shown[k] == visible@[i as int]);
            heights.push(report::triage_block_height(&text, area.width));
            texts.push(text);
            i = i + 1;
        }
        assert(heights_wanted.take(i - start) =~= heights_wanted);
        let (summary_area, areas) = report::triage_panels(area, summary_height, &heights);
        proof {
            report::lemma_stacked_len(
                area,
                report::below_summary(area, summary_height),
                heights@,
            );
        }
        let ghost wanted = self@.panels_shown(
            area,
            report::below_summary(area, summary_height),
        );
        let mut panels: Vec<Panel> = Vec::new();
        let mut j: usize = 0;
        while j < areas.len()
            invariant
                j <= areas@.len(),
                areas@.len() <= texts@.len(),
                start + texts@.len() == visible@.len(),
                visible@ == self@.visible(),
                shown == self@.triage_shown(),
                shown == visible@.skip(start as int),
                heights@ == self@.panel_heights(area.width),
                areas@ == report::stacked(
                    area,
                    report::below_summary(area, summary_height),
                    heights@,
                ),
                forall|k: int|
                    0 <= k < texts@.len() ==> (#[trigger] texts@[k]).shown() == self@.findings_of(
                        shown[k],
                    ),
                wanted == self@.panels_shown(area, report::below_summary(area, summary_height)),
                panel_views(panels@) =~= wanted.take(j as int),
            decreases areas@.len() - j,
        {
            assert(start + j < visible.len());
            assert(shown[j as int] == visible@[start + j]);
            let ghost before = panels@;
            let panel = Panel {
                area: areas[j],
                title: spaced_text(visible[start + j].name.as_str()),
                text: texts[j].clone(),
                selected: j == 0,
            };
            panels.push(panel);
            assert(panel_views(panels@) =~= panel_views(before).push(panel@));
            j = j + 1;
        }
        assert(wanted.take(j as int) =~= wanted);
        Body::Triage { summary, summary_area, panels }
    }

    /// Puts together what is shown on a screen, some milliseconds after the start.
    pub fn render(&mut self, area: Rect, elapsed: u64) -> (r: Screen)
        requires
            old(self)@.is_sound(),
        ensures
            layout::is_frame(area, r.tabs_area, r.body_area, r.bar_area),
            old(self)@.may_arrange(r.body_area, final(self)@.pane_areas),
            final(self)@ == (AppModel { pane_areas: final(self)@.pane_areas, ..old(self)@ }),
            final(self)@.is_sound(),
            final(self)@.panes_fit(),
            text::views(r.tab_titles@) == final(self)@.tab_titles(),
            r.active_tab == final(self)@.active_tab,
            r.body@ == final(self)@.body(r.body_area, flashes(elapsed)),
            (r.status@, r.text@) == final(self)@.bar(),
            r.refresh_rate@ == final(self)@.rate_label(),
            r.text_area == layout::bar_left(r.bar_area, final(self)@.suffix(r.bar_area.width)),
            r.suffix_area == layout::bar_right(r.bar_area, final(self)@.suffix(r.bar_area.width)),
            r.cursor == (if final(self)@.mode == Mode::Command {
                Some(
                    (
                        cursor_of(
                            r.text_area,
                            r.bar_area.x,
                            final(self)@.command_cursor,
                        ) as u16,
                        r.bar_area.y,
                    ),
                )
            } else {
                None
            }),
    {
        let (tabs_area, body_area, bar_area) = layout::frame_areas(area);
        self.arrange(body_area);
        let flash = flash_visible(elapsed);
        let body = if self.active_tab().is_triage {
            self.triage_body(body_area)
        } else {
            Body::Lists(self.list_panes(flash))
        };
        let (status, text) = match self.mode {
            Mode::Normal => {
                let (title, text) = self.normal_status();
                (title.to_owned(), text)
            },
            Mode::Command => (
                " COMMAND ".to_owned(),
                text::concat(":", self.command.as_str()),
            ),
        };
        let refresh_rate = self.refresh_rate_label();
        let (text_area, suffix_area) = layout::bar_areas(
            bar_area,
            suffix_width(refresh_rate.as_str(), status.as_str(), bar_area.width),
        );
        let cursor = match self.mode {
            Mode::Normal => None,
            Mode::Command => Some(
                (cursor_column(text_area, bar_area.x, self.command_cursor), bar_area.y),
            ),
        };
        Screen {
            tabs_area,
            tab_titles: self.titles(),
            active_tab: self.active_tab,
            body_area,
            body,
            bar_area,
            text_area,
            text,
            suffix_area,
            refresh_rate,
            status,
            cursor,
        }
    }

    /// Takes over what drawing a list made of its selection and its first row.
    pub fn table_drawn(&mut self, view: usize, selected: Option<usize>, offset: usize)
        requires
            old(self)@.is_sound(),
            view < old(self)@.active().views.len(),
        ensures
            final(self)@ == old(self)@.with_active(
                crate::view::TabModel {
                    views: old(self)@.active().views.update(
                        view as int,
                        ListModel {
                            table_state: crate::view::TableState { selected, offset },
                            ..old(self)@.active().views[view as int]
                        },
                    ),
                    ..old(self)@.active()
                },
            ),
            final(self)@.is_sound(),
    {
        let ghost before = self@;
        let ghost tab = before.active();
        let ghost after = crate::view::TabModel {
            views: tab.views.update(
                view as int,
                ListModel {
                    table_state: crate::view::TableState { selected, offset },
                    ..tab.views[view as int]
                },
            ),
            ..tab
        };
        proof {
            assert(before.tabs[before.active_tab as int].is_sound());
            actions::lemma_with_active_sound(before, after);
        }
        let tab = self.active_tab_mut();
        assert(tab@.views.len() == tab.views@.len());
        assert(tab@.views[view as int] == tab.views@[view as int]@);
        tab.views[view].table_state = crate::view::TableState { selected, offset };
        assert(tab@.views =~= after.views);
    }
}

} // verus!
