//! The session: what is shown, and how it answers to keys, clicks and what is loaded.
use vstd::prelude::*;
use vstd::string::*;

use crate::cache;
use crate::command;
use crate::github::{TriageModel, Workflow, WorkflowTriage};
use crate::layout::{self, Rect};
use crate::query::{self, Numerals, NumeralsModel};
use crate::report;
use crate::repository::{Repository, RepositoryModel};
use crate::state::{self, SavedTabModel, StateModel, ViewState, ViewTab};
use crate::text;
use crate::view::{self, ListModel, ListView, Tab, TabModel};

verus! {

broadcast use crate::text::lemma_views_push;

/// How often workflows are refreshed at first, in seconds.
pub const DEFAULT_REFRESH_INTERVAL: u64 = 15;

/// How long the status of a workflow in progress is shown and hidden in turn, in milliseconds.
pub const STATUS_FLASH_INTERVAL: u64 = 500;

/// Whether keys move the selection or edit a command.
#[derive(Clone, Copy, Debug, PartialEq, Eq, Structural)]
pub enum Mode {
    Normal,
    Command,
}

/// Why workflows are loaded.
#[derive(Clone, Copy, Debug, PartialEq, Eq, Structural)]
pub enum LoadKind {
    /// The session starts.
    Initial,
    /// A saved session is loaded.
    Edit,
    /// The workflows are refreshed.
    Refresh,
}

/// Where the findings of a triage go.
#[derive(Clone, Copy, Debug, PartialEq, Eq, Structural)]
pub enum TriageTarget {
    NewTab { insert_after: usize },
    RefreshTab { index: usize },
}

/// A load that is under way, and what becomes of the session when workflows are discovered.
pub struct PendingLoad {
    pub repository: Repository,
    pub workflow_ids: Option<Vec<u64>>,
    pub state_path: Option<String>,
    pub kind: LoadKind,
    pub tabs: Option<Vec<ViewTab>>,
    pub active_tab: usize,
}

/// What a [`PendingLoad`] stands for.
pub struct PendingModel {
    pub repository: RepositoryModel,
    pub workflow_ids: Option<Seq<u64>>,
    pub state_path: Option<Seq<char>>,
    pub kind: LoadKind,
    pub tabs: Option<Seq<SavedTabModel>>,
    pub active_tab: usize,
}

/// What optional identifiers are.
pub open spec fn ids_view(ids: Option<Vec<u64>>) -> Option<Seq<u64>> {
    match ids {
        Some(ids) => Some(ids@),
        None => None,
    }
}

/// What optional saved tabs say.
pub open spec fn tabs_view(tabs: Option<Vec<ViewTab>>) -> Option<Seq<SavedTabModel>> {
    match tabs {
        Some(tabs) => Some(state::saved_tab_views(tabs@)),
        None => None,
    }
}

impl View for PendingLoad {
    type V = PendingModel;

    open spec fn view(&self) -> PendingModel {
        PendingModel {
            repository: self.repository@,
            workflow_ids: ids_view(self.workflow_ids),
            state_path: text::view_opt(self.state_path),
            kind: self.kind,
            tabs: tabs_view(self.tabs),
            active_tab: self.active_tab,
        }
    }
}

impl PendingModel {
    /// Whether the saved tabs, where there are any, can be shown.
    pub open spec fn is_sound(self) -> bool {
        self.tabs matches Some(tabs) ==> state::tabs_sound(tabs)
    }
}

/// What happened while workflows are loaded.
#[derive(Debug, PartialEq, Eq)]
pub enum LoadEvent {
    /// The workflows of the repository are known.
    Discovered(Vec<Workflow>),
    /// The status of a workflow is known.
    WorkflowLoaded(Workflow),
    /// The status of a workflow could not be loaded.
    WorkflowFailed { id: u64, name: String, error: String },
    /// The workflows could not be loaded.
    Fatal(String),
    /// All is loaded.
    Complete,
    /// The load ended without saying so.
    Stopped,
}

/// What has to be done outside of the session.
#[derive(Debug, PartialEq, Eq)]
pub enum Effect {
    /// Nothing.
    Nothing,
    /// Write the history file, and tell the session with [`App::history_saved`].
    SaveHistory { path: String, contents: String },
    /// Write a state file, and tell the session with [`App::state_written`].
    WriteState { path: String, state: ViewState, quit: bool },
    /// Read a state file, and tell the session with [`App::state_read`].
    ReadState { path: String },
    /// Load the workflows of a repository, or those with some identifiers.
    Load { repository: Repository, wanted: Option<Vec<u64>> },
    /// Find out why workflows fail.
    Triage { repository: Repository, workflows: Vec<Workflow> },
    /// Write the runs that were gathered to the file that keeps them between sessions.
    SaveCache,
}

/// What an [`Effect`] stands for.
pub enum EffectModel {
    Nothing,
    SaveHistory { path: Seq<char>, contents: Seq<char> },
    WriteState { path: Seq<char>, state: StateModel, quit: bool },
    ReadState { path: Seq<char> },
    Load { repository: RepositoryModel, wanted: Option<Seq<u64>> },
    Triage { repository: RepositoryModel, workflows: Seq<Workflow> },
    SaveCache,
}

impl View for Effect {
    type V = EffectModel;

    open spec fn view(&self) -> EffectModel {
        match self {
            Effect::Nothing => EffectModel::Nothing,
            Effect::SaveHistory { path, contents } => EffectModel::SaveHistory {
                path: path@,
                contents: contents@,
            },
            Effect::WriteState { path, state, quit } => EffectModel::WriteState {
                path: path@,
                state: state@,
                quit: *quit,
            },
            Effect::ReadState { path } => EffectModel::ReadState { path: path@ },
            Effect::Load { repository, wanted } => EffectModel::Load {
                repository: repository@,
                wanted: ids_view(*wanted),
            },
            Effect::Triage { repository, workflows } => EffectModel::Triage {
                repository: repository@,
                workflows: workflows@,
            },
            Effect::SaveCache => EffectModel::SaveCache,
        }
    }
}

/// A session.
pub struct App {
    pub repository: Repository,
    pub workflows: Vec<Workflow>,
    pub state_path: Option<String>,
    pub pending_load: Option<PendingLoad>,
    pub load_failures: Vec<String>,
    pub loaded_status_count: u64,
    pub loading_status_ids: Vec<u64>,
    pub triage_running: bool,
    pub triage_target: Option<TriageTarget>,
    pub triage: Vec<WorkflowTriage>,
    pub tabs: Vec<Tab>,
    pub active_tab: usize,
    pub mode: Mode,
    pub command: String,
    pub command_cursor: usize,
    pub command_history: Vec<String>,
    pub command_history_path: Option<String>,
    pub history_index: Option<usize>,
    pub history_draft: String,
    pub message: Option<String>,
    pub pending_g: bool,
    pub should_quit: bool,
    /// The time between two refreshes, in seconds.
    pub refresh_interval: u64,
    /// When the next refresh is due, in milliseconds of the clock of the session.
    pub next_refresh: u128,
    pub pending_ctrl_w: bool,
    pub pane_areas: Vec<(usize, Rect)>,
    pub numerals: Numerals,
}

/// What an [`App`] stands for.
#[verifier::ext_equal]
pub struct AppModel {
    pub repository: RepositoryModel,
    pub workflows: Seq<Workflow>,
    pub state_path: Option<Seq<char>>,
    pub pending_load: Option<PendingModel>,
    pub load_failures: Seq<Seq<char>>,
    pub loaded_status_count: u64,
    pub loading_status_ids: Seq<u64>,
    pub triage_running: bool,
    pub triage_target: Option<TriageTarget>,
    pub triage: Seq<TriageModel>,
    pub tabs: Seq<TabModel>,
    pub active_tab: usize,
    pub mode: Mode,
    pub command: Seq<char>,
    pub command_cursor: usize,
    pub command_history: Seq<Seq<char>>,
    pub command_history_path: Option<Seq<char>>,
    pub history_index: Option<usize>,
    pub history_draft: Seq<char>,
    pub message: Option<Seq<char>>,
    pub pending_g: bool,
    pub should_quit: bool,
    pub refresh_interval: u64,
    pub next_refresh: u128,
    pub pending_ctrl_w: bool,
    pub pane_areas: Seq<(usize, Rect)>,
    pub numerals: NumeralsModel,
}

/// What some tabs stand for.
pub open spec fn tab_views(tabs: Seq<Tab>) -> Seq<TabModel> {
    tabs.map_values(|tab: Tab| tab@)
}

/// What an optional load stands for.
pub open spec fn pending_view(pending: Option<PendingLoad>) -> Option<PendingModel> {
    match pending {
        Some(pending) => Some(pending@),
        None => None,
    }
}

impl View for App {
    type V = AppModel;

    open spec fn view(&self) -> AppModel {
        AppModel {
            repository: self.repository@,
            workflows: self.workflows@,
            state_path: text::view_opt(self.state_path),
            pending_load: pending_view(self.pending_load),
            load_failures: text::views(self.load_failures@),
            loaded_status_count: self.loaded_status_count,
            loading_status_ids: self.loading_status_ids@,
            triage_running: self.triage_running,
            triage_target: self.triage_target,
            triage: report::result_views(self.triage@),
            tabs: tab_views(self.tabs@),
            active_tab: self.active_tab,
            mode: self.mode,
            command: self.command@,
            command_cursor: self.command_cursor,
            command_history: text::views(self.command_history@),
            command_history_path: text::view_opt(self.command_history_path),
            history_index: self.history_index,
            history_draft: self.history_draft@,
            message: text::view_opt(self.message),
            pending_g: self.pending_g,
            should_quit: self.should_quit,
            refresh_interval: self.refresh_interval,
            next_refresh: self.next_refresh,
            pending_ctrl_w: self.pending_ctrl_w,
            pane_areas: self.pane_areas@,
            numerals: self.numerals@,
        }
    }
}

/// Whether all tabs can be shown.
pub open spec fn all_sound(tabs: Seq<TabModel>) -> bool {
    forall|i: int| 0 <= i < tabs.len() ==> (#[trigger] tabs[i]).is_sound()
}

impl AppModel {
    /// Whether there is an active tab, all tabs can be shown, the cursor stands in the command,
    /// the history is within its limit and the place in it is one of it.
    pub open spec fn is_sound(self) -> bool {
        &&& self.active_tab < self.tabs.len()
        &&& all_sound(self.tabs)
        &&& self.command_cursor <= self.command.len()
        &&& self.command_history.len() <= command::MAX_COMMAND_HISTORY
        &&& self.history_index matches Some(i) ==> i < self.command_history.len()
        &&& self.pending_load matches Some(pending) ==> pending.is_sound()
    }

    /// Whether the areas of views that are remembered are those of views of the active tab.
    pub open spec fn panes_fit(self) -> bool {
        layout::panes_below(self.pane_areas, self.active().views.len() as int)
    }

    /// The active tab.
    pub open spec fn active(self) -> TabModel {
        self.tabs[self.active_tab as int]
    }

    /// The session with another tab in place of the active one.
    pub open spec fn with_active(self, tab: TabModel) -> AppModel {
        AppModel { tabs: self.tabs.update(self.active_tab as int, tab), ..self }
    }

    /// The active view of the active tab.
    pub open spec fn active_view(self) -> ListModel {
        self.active().active()
    }

    /// The session with another view in place of the active one.
    pub open spec fn with_active_view(self, view: ListModel) -> AppModel {
        self.with_active(self.active().with_active(view))
    }

    /// The session with a message.
    pub open spec fn saying(self, message: Seq<char>) -> AppModel {
        AppModel { message: Some(message), ..self }
    }

    /// The workflows that a view shows.
    pub open spec fn shown_by(self, view: ListModel) -> Seq<Workflow> {
        view.visible(self.workflows, self.numerals)
    }

    /// The workflows that the active view shows.
    pub open spec fn visible(self) -> Seq<Workflow> {
        self.shown_by(self.active_view())
    }

    /// The session with another row of the active view selected.
    pub open spec fn selecting(self, row: Option<usize>) -> AppModel {
        self.with_active_view(self.active_view().selecting(row))
    }

    /// The workflows of the selected rows of a tab.
    pub open spec fn selected_in(self, tab: TabModel) -> Seq<Option<u64>> {
        tab.views.map_values(|view: ListModel| view.selected_id(self.workflows, self.numerals))
    }

    /// The workflows of the selected rows of all tabs.
    pub open spec fn selected_ids(self) -> Seq<Seq<Option<u64>>> {
        self.tabs.map_values(|tab: TabModel| self.selected_in(tab))
    }

    /// A tab with the selection of each view repaired.
    pub open spec fn repaired_tab(self, tab: TabModel, wanted: Seq<Option<u64>>) -> TabModel {
        TabModel {
            views: Seq::new(
                tab.views.len(),
                |i: int|
                    tab.views[i].selecting(
                        tab.views[i].repaired(
                            self.workflows,
                            self.numerals,
                            if i < wanted.len() {
                                wanted[i]
                            } else {
                                None
                            },
                        ),
                    ),
            ),
            ..tab
        }
    }

    /// The session with the selection of each view repaired: it stays on the workflow that is
    /// wanted, where one is and it is shown.
    pub open spec fn repaired(self, wanted: Option<Seq<Seq<Option<u64>>>>) -> AppModel {
        AppModel {
            tabs: Seq::new(
                self.tabs.len(),
                |i: int|
                    self.repaired_tab(
                        self.tabs[i],
                        if wanted is Some && i < wanted->0.len() {
                            wanted->0[i]
                        } else {
                            Seq::empty()
                        },
                    ),
            ),
            ..self
        }
    }
}

/// The identifiers of rows, by what they are.
pub open spec fn rows_view(rows: Seq<Vec<Option<u64>>>) -> Seq<Seq<Option<u64>>> {
    rows.map_values(|row: Vec<Option<u64>>| row@)
}

/// What optional identifiers of rows are.
pub open spec fn wanted_view(wanted: Option<Vec<Vec<Option<u64>>>>) -> Option<
    Seq<Seq<Option<u64>>>,
> {
    match wanted {
        Some(rows) => Some(rows_view(rows@)),
        None => None,
    }
}

impl App {
    /// The active tab.
    pub fn active_tab(&self) -> (r: &Tab)
        requires
            self@.is_sound(),
        ensures
            r@ == self@.active(),
            r@.is_sound(),
    {
        assert(self@.tabs[self.active_tab as int] == self.tabs@[self.active_tab as int]@);
        &self.tabs[self.active_tab]
    }

    /// The active tab, to be changed.
    pub fn active_tab_mut(&mut self) -> (r: &mut Tab)
        requires
            old(self)@.is_sound(),
        ensures
            r@ == old(self)@.active(),
            r@.is_sound(),
            final(self)@ == old(self)@.with_active(final(r)@),
    {
        assert(self@.tabs[self.active_tab as int] == self.tabs@[self.active_tab as int]@);
        &mut self.tabs[self.active_tab]
    }

    /// The active view of the active tab.
    pub fn active_view(&self) -> (r: &ListView)
        requires
            self@.is_sound(),
        ensures
            r@ == self@.active_view(),
    {
        self.active_tab().active_view()
    }

    /// The active view of the active tab, to be changed.
    pub fn active_view_mut(&mut self) -> (r: &mut ListView)
        requires
            old(self)@.is_sound(),
        ensures
            r@ == old(self)@.active_view(),
            final(self)@ == old(self)@.with_active_view(final(r)@),
    {
        self.active_tab_mut().active_view_mut()
    }

    /// The workflows that a view shows.
    pub fn visible_workflows_for(&self, view: &ListView) -> (r: Vec<&Workflow>)
        ensures
            query::pointed(r@) == self@.shown_by(view@),
    {
        view.visible_workflows(self.workflows.as_slice(), &self.numerals)
    }

    /// The workflows that the active view shows.
    pub fn visible_workflows(&self) -> (r: Vec<&Workflow>)
        requires
            self@.is_sound(),
        ensures
            query::pointed(r@) == self@.visible(),
    {
        self.visible_workflows_for(self.active_view())
    }

    /// The workflows of the selected rows of all tabs.
    pub fn selected_workflow_ids(&self) -> (r: Vec<Vec<Option<u64>>>)
        ensures
            rows_view(r@) == self@.selected_ids(),
    {
        let ghost all = self@.selected_ids();
        let mut r: Vec<Vec<Option<u64>>> = Vec::new();
        let mut i: usize = 0;
        while i < self.tabs.len()
            invariant
                i <= self.tabs@.len(),
                all == self@.selected_ids(),
                rows_view(r@) =~= all.take(i as int),
            decreases self.tabs@.len() - i,
        {
            let tab = &self.tabs[i];
            let ghost row = self@.selected_in(tab@);
            let mut ids: Vec<Option<u64>> = Vec::new();
            let mut j: usize = 0;
            while j < tab.views.len()
                invariant
                    j <= tab.views@.len(),
                    row == self@.selected_in(tab@),
                    ids@ =~= row.take(j as int),
                decreases tab.views@.len() - j,
            {
                assert(tab@.views[j as int] == tab.views@[j as int]@);
                ids.push(
                    tab.views[j].selected_workflow_id(self.workflows.as_slice(), &self.numerals),
                );
                j = j + 1;
            }
            assert(row.take(j as int) =~= row);
            let ghost before = r@;
            r.push(ids);
            assert(self@.tabs[i as int] == tab@);
            assert(rows_view(r@) =~= rows_view(before).push(row));
            i = i + 1;
        }
        assert(all.take(i as int) =~= all);
        r
    }

    /// Repairs the selection of each view.
    pub fn repair_all_tab_selections(&mut self, wanted: Option<Vec<Vec<Option<u64>>>>)
        ensures
            final(self)@ == old(self)@.repaired(wanted_view(wanted)),
    {
        let ghost before = self@;
        let ghost ids = wanted_view(wanted);
        let ghost after = before.repaired(ids);
        let mut i: usize = 0;
        while i < self.tabs.len()
            invariant
                i <= self.tabs@.len(),
                self.tabs@.len() == before.tabs.len(),
                ids == wanted_view(wanted),
                after == before.repaired(ids),
                self@ == (AppModel { tabs: self@.tabs, ..before }),
                forall|k: int| 0 <= k < i ==> #[trigger] self@.tabs[k] == after.tabs[k],
                forall|k: int|
                    i <= k < before.tabs.len() ==> #[trigger] self@.tabs[k] == before.tabs[k],
            decreases self.tabs@.len() - i,
        {
            let ghost tab_before = before.tabs[i as int];
            let ghost row = if ids is Some && i < ids->0.len() {
                ids->0[i as int]
            } else {
                Seq::empty()
            };
            let ghost tab_after = before.repaired_tab(tab_before, row);
            let ghost outer = self@.tabs;
            assert(self@.tabs[i as int] == self.tabs@[i as int]@);
            let tab = &mut self.tabs[i];
            let mut j: usize = 0;
            while j < tab.views.len()
                invariant
                    j <= tab.views@.len(),
                    tab.views@.len() == tab_before.views.len(),
                    ids == wanted_view(wanted),
                    row == (if ids is Some && i < ids->0.len() {
                        ids->0[i as int]
                    } else {
                        Seq::empty()
                    }),
                    tab_after == before.repaired_tab(tab_before, row),
                    before.workflows == self.workflows@,
                    before.numerals == self.numerals@,
                    tab@ == (TabModel { views: tab@.views, ..tab_before }),
                    forall|k: int| 0 <= k < j ==> #[trigger] tab@.views[k] == tab_after.views[k],
                    forall|k: int|
                        j <= k < tab_before.views.len() ==> #[trigger] tab@.views[k]
                            == tab_before.views[k],
                decreases tab.views@.len() - j,
            {
                let want = match &wanted {
                    Some(rows) => if i < rows.len() && j < rows[i].len() {
                        rows[i][j]
                    } else {
                        None
                    },
                    None => None,
                };
                assert(tab@.views[j as int] == tab.views@[j as int]@);
                let ghost views = tab@.views;
                tab.views[j].repair_selection(self.workflows.as_slice(), &self.numerals, want);
                assert(tab@.views =~= views.update(j as int, tab_after.views[j as int]));
                j = j + 1;
            }
            assert(tab@.views =~= tab_after.views);
            assert(self@.tabs =~= outer.update(i as int, tab_after));
            i = i + 1;
        }
        assert(self@.tabs =~= after.tabs);
    }
}

/// A number in decimal digits with a text behind it.
pub open spec fn counted(n: int, rest: Seq<char>) -> Seq<char> {
    text::decimal(n as nat) + rest
}

/// Writes a number with a text behind it.
pub fn count_text(n: usize, rest: &str) -> (r: String)
    ensures
        r@ == counted(n as int, rest@),
{
    text::concat(text::number_text(n as u64).as_str(), rest)
}

impl AppModel {
    /// A session with some tabs.
    pub open spec fn with_tabs(
        repository: RepositoryModel,
        workflows: Seq<Workflow>,
        state_path: Option<Seq<char>>,
        tabs: Seq<TabModel>,
        active_tab: usize,
        now: u64,
    ) -> AppModel {
        AppModel {
            repository,
            workflows,
            state_path,
            pending_load: None,
            load_failures: Seq::empty(),
            loaded_status_count: 0,
            loading_status_ids: Seq::empty(),
            triage_running: false,
            triage_target: None,
            triage: Seq::empty(),
            tabs,
            active_tab,
            mode: Mode::Normal,
            command: Seq::empty(),
            command_cursor: 0,
            command_history: Seq::empty(),
            command_history_path: None,
            history_index: None,
            history_draft: Seq::empty(),
            message: None,
            pending_g: false,
            should_quit: false,
            refresh_interval: DEFAULT_REFRESH_INTERVAL,
            next_refresh: due_at(now, DEFAULT_REFRESH_INTERVAL),
            pending_ctrl_w: false,
            pane_areas: Seq::empty(),
            numerals: NumeralsModel { readings: Map::empty(), rates: Map::empty() },
        }
    }

    /// A new session: with the tabs that were saved, or one unnamed tab of all workflows, and
    /// the first row of each view selected.
    pub open spec fn start(
        repository: RepositoryModel,
        workflows: Seq<Workflow>,
        state_path: Option<Seq<char>>,
        saved_tabs: Option<(Seq<SavedTabModel>, usize)>,
        now: u64,
    ) -> AppModel {
        let (tabs, active_tab) = match saved_tabs {
            Some((tabs, active_tab)) => (
                tabs.map_values(|tab: SavedTabModel| TabModel::restored(tab)),
                within(active_tab, tabs.len()),
            ),
            None => (seq![TabModel::start(None, state::ids_of(workflows), None, None)], 0),
        };
        AppModel::with_tabs(repository, workflows, state_path, tabs, active_tab, now).repaired(None)
    }

    /// The session with a load under way.
    pub open spec fn loading(self, pending: PendingModel) -> AppModel {
        AppModel {
            pending_load: Some(pending),
            load_failures: Seq::empty(),
            loaded_status_count: 0,
            loading_status_ids: Seq::empty(),
            message: None,
            ..self
        }
    }
}

/// When something is due that comes a number of seconds from now.
pub open spec fn due_at(now: u64, seconds: u64) -> u128 {
    (now + seconds * 1000) as u128
}

/// A place in a list, or the last place where it lies behind the list.
pub open spec fn within(place: usize, count: nat) -> usize {
    if place < count {
        place
    } else if count == 0 {
        0
    } else {
        (count - 1) as usize
    }
}

/// Computes when something is due that comes a number of seconds from now.
pub fn due(now: u64, seconds: u64) -> (r: u128)
    ensures
        r == due_at(now, seconds),
{
    now as u128 + seconds as u128 * 1000
}

/// What saved tabs say, with the one that is active.
pub open spec fn saved_view(saved: Option<(Vec<ViewTab>, usize)>) -> Option<
    (Seq<SavedTabModel>, usize),
> {
    match saved {
        Some((tabs, active_tab)) => Some((state::saved_tab_views(tabs@), active_tab)),
        None => None,
    }
}

fn restore_tabs(saved: Vec<ViewTab>) -> (r: Vec<Tab>)
    requires
        state::tabs_sound(state::saved_tab_views(saved@)),
    ensures
        tab_views(r@) == state::saved_tab_views(saved@).map_values(
            |tab: SavedTabModel| TabModel::restored(tab),
        ),
        all_sound(tab_views(r@)),
        r@.len() > 0,
{
    let ghost models = state::saved_tab_views(saved@);
    let ghost all = models.map_values(|tab: SavedTabModel| TabModel::restored(tab));
    let mut r: Vec<Tab> = Vec::new();
    let mut i: usize = 0;
    while i < saved.len()
        invariant
            i <= saved@.len(),
            models == state::saved_tab_views(saved@),
            state::tabs_sound(models),
            all == models.map_values(|tab: SavedTabModel| TabModel::restored(tab)),
            tab_views(r@) =~= all.take(i as int),
            all_sound(tab_views(r@)),
        decreases saved@.len() - i,
    {
        let ghost before = r@;
        assert(models[i as int] == saved@[i as int]@);
        assert(models[i as int].is_sound());
        let tab = saved[i].clone();
        let restored = Tab::from_view(tab);
        r.push(restored);
        assert(tab_views(r@) =~= tab_views(before).push(restored@));
        i = i + 1;
    }
    assert(all.take(i as int) =~= all);
    r
}

/// A list of one tab.
pub fn one_tab(tab: Tab) -> (r: Vec<Tab>)
    ensures
        tab_views(r@) == seq![tab@],
{
    let mut r: Vec<Tab> = Vec::new();
    r.push(tab);
    assert(tab_views(r@) =~= seq![tab@]);
    r
}

/// Repairing selections changes no tab but for its selections.
pub proof fn lemma_repaired_sound(app: AppModel, wanted: Option<Seq<Seq<Option<u64>>>>)
    requires
        all_sound(app.tabs),
    ensures
        all_sound(app.repaired(wanted).tabs),
        app.repaired(wanted).tabs.len() == app.tabs.len(),
{
    let after = app.repaired(wanted);
    assert forall|i: int| 0 <= i < after.tabs.len() implies (#[trigger] after.tabs[i]).is_sound() by {
        assert(app.tabs[i].is_sound());
    }
}

impl App {
    /// Starts a session with some workflows, on a clock that shows `now` milliseconds.
    pub fn new(
        repository: Repository,
        workflows: Vec<Workflow>,
        state_path: Option<String>,
        saved_tabs: Option<(Vec<ViewTab>, usize)>,
        now: u64,
    ) -> (r: Self)
        requires
            saved_tabs matches Some(saved) ==> state::tabs_sound(state::saved_tab_views(saved.0@)),
        ensures
            r@ == AppModel::start(
                repository@,
                workflows@,
                text::view_opt(state_path),
                saved_view(saved_tabs),
                now,
            ),
            r@.is_sound(),
    {
        let ghost models = saved_view(saved_tabs);
        let (tabs, active_tab) = match saved_tabs {
            Some((saved, active_tab)) => {
                let tabs = restore_tabs(saved);
                assert(tab_views(tabs@).len() == tabs@.len());
                let active_tab = if active_tab < tabs.len() {
                    active_tab
                } else {
                    tabs.len() - 1
                };
                (tabs, active_tab)
            },
            None => {
                let tab = Tab::new(None, state::workflow_ids(workflows.as_slice()), None, None);
                (one_tab(tab), 0)
            },
        };
        let command = String::new();
        let history_draft = String::new();
        assert(command@ =~= Seq::<char>::empty());
        assert(history_draft@ =~= Seq::<char>::empty());
        let mut app = App {
            repository,
            workflows,
            state_path,
            pending_load: None,
            load_failures: Vec::new(),
            loaded_status_count: 0,
            loading_status_ids: Vec::new(),
            triage_running: false,
            triage_target: None,
            triage: Vec::new(),
            tabs,
            active_tab,
            mode: Mode::Normal,
            command,
            command_cursor: 0,
            command_history: Vec::new(),
            command_history_path: None,
            history_index: None,
            history_draft,
            message: None,
            pending_g: false,
            should_quit: false,
            refresh_interval: DEFAULT_REFRESH_INTERVAL,
            next_refresh: due(now, DEFAULT_REFRESH_INTERVAL),
            pending_ctrl_w: false,
            pane_areas: Vec::new(),
            numerals: Numerals::new(),
        };
        let ghost plain = AppModel::with_tabs(
            repository@,
            workflows@,
            text::view_opt(state_path),
            tab_views(tabs@),
            active_tab,
            now,
        );
        assert(app@ =~= plain);
        app.repair_all_tab_selections(None);
        proof {
            lemma_repaired_sound(plain, None);
        }
        app
    }

    /// Starts a session whose workflows are still to be loaded. The state file that it was
    /// started with is remembered from the start.
    pub fn new_loading(
        repository: Repository,
        workflow_ids: Option<Vec<u64>>,
        state_path: Option<String>,
        tabs: Option<Vec<ViewTab>>,
        active_tab: usize,
        now: u64,
    ) -> (r: (Self, Effect))
        requires
            tabs_view(tabs) matches Some(tabs) ==> state::tabs_sound(tabs),
        ensures
            r.0@ == AppModel::start(
                repository@,
                Seq::<Workflow>::empty(),
                text::view_opt(state_path),
                None,
                now,
            ).loading(
                PendingModel {
                    repository: repository@,
                    workflow_ids: ids_view(workflow_ids),
                    state_path: text::view_opt(state_path),
                    kind: LoadKind::Initial,
                    tabs: tabs_view(tabs),
                    active_tab,
                },
            ),
            r.0@.is_sound(),
            r.1@ == (EffectModel::Load {
                repository: repository@,
                wanted: ids_view(workflow_ids),
            }),
    {
        let remembered = cache::clone_text(&state_path);
        let mut app = App::new(repository.clone(), Vec::new(), remembered, None, now);
        let effect = app.start_loading(
            PendingLoad {
                repository,
                workflow_ids,
                state_path,
                kind: LoadKind::Initial,
                tabs,
                active_tab,
            },
        );
        (app, effect)
    }

    /// Starts a load.
    pub fn start_loading(&mut self, pending: PendingLoad) -> (r: Effect)
        requires
            old(self)@.is_sound(),
            pending@.is_sound(),
        ensures
            final(self)@ == old(self)@.loading(pending@),
            final(self)@.is_sound(),
            r@ == (EffectModel::Load {
                repository: pending@.repository,
                wanted: pending@.workflow_ids,
            }),
    {
        let ghost before = self@;
        let effect = Effect::Load {
            repository: pending.repository.clone(),
            wanted: match &pending.workflow_ids {
                Some(ids) => Some(state::clone_ids(ids)),
                None => None,
            },
        };
        self.pending_load = Some(pending);
        self.load_failures = Vec::new();
        self.loaded_status_count = 0;
        self.loading_status_ids = Vec::new();
        self.message = None;
        assert(self@ =~= before.loading(pending@));
        effect
    }

    /// Whether a load is under way.
    pub fn is_loading(&self) -> (r: bool)
        ensures
            r == (self@.pending_load is Some),
    {
        self.pending_load.is_some()
    }
}

/// The workflows whose status a load fetches: all that were discovered, or those wanted.
pub open spec fn targets_of(workflows: Seq<Workflow>, wanted: Option<Seq<u64>>) -> Seq<Workflow> {
    workflows.filter(|workflow: Workflow| wanted is None || wanted->0.contains(workflow.id))
}

/// Picks the workflows whose status a load fetches.
pub fn load_targets(workflows: &Vec<Workflow>, wanted: &Option<Vec<u64>>) -> (r: Vec<Workflow>)
    ensures
        r@ == targets_of(workflows@, ids_view(*wanted)),
{
    let ghost test = |workflow: Workflow|
        ids_view(*wanted) is None || ids_view(*wanted)->0.contains(workflow.id);
    let mut r: Vec<Workflow> = Vec::new();
    let mut i: usize = 0;
    assert(r@ =~= workflows@.take(0).filter(test)) by {
        reveal(Seq::filter);
    }
    while i < workflows.len()
        invariant
            i <= workflows@.len(),
            test == (|workflow: Workflow|
                ids_view(*wanted) is None || ids_view(*wanted)->0.contains(workflow.id)),
            r@ == workflows@.take(i as int).filter(test),
        decreases workflows@.len() - i,
    {
        proof {
            reveal(Seq::filter);
            assert(workflows@.take(i + 1).drop_last() =~= workflows@.take(i as int));
        }
        let is_wanted = match wanted {
            Some(ids) => {
                assert(ids@.take(ids@.len() as int) =~= ids@);
                state::has_id(ids, ids.len(), workflows[i].id)
            },
            None => true,
        };
        if is_wanted {
            r.push(workflows[i].clone());
        }
        i = i + 1;
    }
    assert(workflows@.take(i as int) =~= workflows@);
    r
}

/// The first workflow with an identifier.
pub open spec fn first_with_id(workflows: Seq<Workflow>, id: u64) -> Option<int>
    decreases workflows.len(),
{
    if workflows.len() == 0 {
        None
    } else {
        match first_with_id(workflows.drop_last(), id) {
            Some(i) => Some(i),
            None => if workflows.last().id == id {
                Some(workflows.len() - 1)
            } else {
                None
            },
        }
    }
}

/// What [`first_with_id`] finds.
pub proof fn lemma_first_with_id(workflows: Seq<Workflow>, id: u64)
    ensures
        match first_with_id(workflows, id) {
            Some(i) => 0 <= i < workflows.len() && workflows[i].id == id,
            None => forall|i: int| 0 <= i < workflows.len() ==> (#[trigger] workflows[i]).id != id,
        },
    decreases workflows.len(),
{
    if workflows.len() > 0 {
        let front = workflows.drop_last();
        lemma_first_with_id(front, id);
        match first_with_id(workflows, id) {
            Some(_) => {},
            None => {
                assert forall|i: int| 0 <= i < workflows.len() implies (#[trigger] workflows[i]).id
                    != id by {
                    if i < front.len() {
                        assert(front[i].id != id);
                    }
                }
            },
        }
    }
}

fn find_first(workflows: &Vec<Workflow>, id: u64) -> (r: Option<usize>)
    ensures
        match r {
            Some(i) => first_with_id(workflows@, id) == Some(i as int) && i < workflows@.len(),
            None => first_with_id(workflows@, id) is None,
        },
{
    let mut r: Option<usize> = None;
    let mut i: usize = 0;
    while i < workflows.len()
        invariant
            i <= workflows@.len(),
            match r {
                Some(k) => first_with_id(workflows@.take(i as int), id) == Some(k as int) && k < i,
                None => first_with_id(workflows@.take(i as int), id) is None,
            },
        decreases workflows@.len() - i,
    {
        assert(workflows@.take(i + 1).drop_last() =~= workflows@.take(i as int));
        if r.is_none() && workflows[i].id == id {
            r = Some(i);
        }
        i = i + 1;
    }
    assert(workflows@.take(i as int) =~= workflows@);
    r
}

/// A workflow with the status that was known of it, where one was.
pub open spec fn carried(workflow: Workflow, previous: Seq<Workflow>) -> Workflow {
    match first_with_id(previous, workflow.id) {
        Some(i) => Workflow {
            run_status: previous[i].run_status,
            is_in_progress: previous[i].is_in_progress,
            run_metrics: previous[i].run_metrics,
            ..workflow
        },
        None => workflow,
    }
}

fn carry_over(workflows: &Vec<Workflow>, previous: &Vec<Workflow>) -> (r: Vec<Workflow>)
    ensures
        r@ == workflows@.map_values(|workflow: Workflow| carried(workflow, previous@)),
{
    let ghost all = workflows@.map_values(|workflow: Workflow| carried(workflow, previous@));
    let mut r: Vec<Workflow> = Vec::new();
    let mut i: usize = 0;
    while i < workflows.len()
        invariant
            i <= workflows@.len(),
            all == workflows@.map_values(|workflow: Workflow| carried(workflow, previous@)),
            r@ =~= all.take(i as int),
        decreases workflows@.len() - i,
    {
        let mut workflow = workflows[i].clone();
        if let Some(k) = find_first(previous, workflow.id) {
            workflow.run_status = previous[k].run_status;
            workflow.is_in_progress = previous[k].is_in_progress;
            workflow.run_metrics = previous[k].run_metrics;
        }
        r.push(workflow);
        i = i + 1;
    }
    assert(all.take(i as int) =~= all);
    r
}

/// A tab that was saved, with the workflows selected that were selected in it, as far as they
/// are shown.
pub open spec fn restored_with(
    tab: SavedTabModel,
    workflows: Seq<Workflow>,
    numerals: NumeralsModel,
) -> TabModel {
    let plain = TabModel::restored(tab);
    TabModel {
        views: Seq::new(
            plain.views.len(),
            |i: int|
                plain.views[i].selecting(
                    row_wanted(
                        plain.views[i].visible(workflows, numerals),
                        tab.views[i].selected_workflow_id,
                    ),
                ),
        ),
        ..plain
    }
}

/// The row of a workflow that may be wanted.
pub open spec fn row_wanted(visible: Seq<Workflow>, wanted: Option<u64>) -> Option<usize> {
    match wanted {
        Some(id) => match view::row_of(visible, id) {
            Some(row) => Some(row as usize),
            None => None,
        },
        None => None,
    }
}

fn restore_selected(tab: &ViewTab, workflows: &Vec<Workflow>, numerals: &Numerals) -> (r: Tab)
    requires
        tab@.is_sound(),
    ensures
        r@ == restored_with(tab@, workflows@, numerals@),
        r@.is_sound(),
{
    let ghost saved = tab@;
    let ghost plain = TabModel::restored(saved);
    let ghost wanted = restored_with(saved, workflows@, numerals@);
    let mut r = Tab::from_view(tab.clone());
    let mut i: usize = 0;
    while i < r.views.len()
        invariant
            i <= r.views@.len(),
            saved == tab@,
            plain == TabModel::restored(saved),
            wanted == restored_with(saved, workflows@, numerals@),
            r.views@.len() == plain.views.len(),
            plain.views.len() == tab.additional_views@.len() + 1,
            r@ == (TabModel { views: r@.views, ..plain }),
            forall|k: int| 0 <= k < i ==> #[trigger] r@.views[k] == wanted.views[k],
            forall|k: int| i <= k < plain.views.len() ==> #[trigger] r@.views[k] == plain.views[k],
        decreases r.views@.len() - i,
    {
        let selected_id = if i == 0 {
            tab.selected_workflow_id
        } else {
            assert(state::pane_views(tab.additional_views@)[i - 1] == tab.additional_views@[i
                - 1]@);
            tab.additional_views[i - 1].selected_workflow_id
        };
        assert(selected_id == saved.views[i as int].selected_workflow_id);
        assert(r@.views[i as int] == r.views@[i as int]@);
        let selected = match selected_id {
            Some(id) => view::find_row(
                &r.views[i].visible_workflows(workflows.as_slice(), numerals),
                id,
            ),
            None => None,
        };
        let ghost views = r@.views;
        r.views[i].table_state.select(selected);
        assert(r@.views =~= views.update(i as int, wanted.views[i as int]));
        i = i + 1;
    }
    assert(r@.views =~= wanted.views);
    r
}

fn restore_all(saved: &Vec<ViewTab>, workflows: &Vec<Workflow>, numerals: &Numerals) -> (r: Vec<Tab>)
    requires
        state::tabs_sound(state::saved_tab_views(saved@)),
    ensures
        tab_views(r@) == state::saved_tab_views(saved@).map_values(
            |tab: SavedTabModel| restored_with(tab, workflows@, numerals@),
        ),
        all_sound(tab_views(r@)),
        r@.len() > 0,
{
    let ghost models = state::saved_tab_views(saved@);
    let ghost all = models.map_values(
        |tab: SavedTabModel| restored_with(tab, workflows@, numerals@),
    );
    let mut r: Vec<Tab> = Vec::new();
    let mut i: usize = 0;
    while i < saved.len()
        invariant
            i <= saved@.len(),
            models == state::saved_tab_views(saved@),
            state::tabs_sound(models),
            all == models.map_values(
                |tab: SavedTabModel| restored_with(tab, workflows@, numerals@),
            ),
            tab_views(r@) =~= all.take(i as int),
            all_sound(tab_views(r@)),
        decreases saved@.len() - i,
    {
        let ghost before = r@;
        assert(models[i as int] == saved@[i as int]@);
        assert(models[i as int].is_sound());
        let tab = restore_selected(&saved[i], workflows, numerals);
        r.push(tab);
        assert(tab_views(r@) =~= tab_views(before).push(tab@));
        i = i + 1;
    }
    assert(all.take(i as int) =~= all);
    r
}

impl AppModel {
    /// The workflows that a load gives: in the order of the identifiers that are wanted, where
    /// there are any, and with the status that was known, where they are refreshed.
    pub open spec fn loaded_workflows(self, workflows: Seq<Workflow>) -> Seq<Workflow> {
        let pending = self.pending_load->0;
        let current = if pending.kind == LoadKind::Refresh {
            workflows.map_values(|workflow: Workflow| carried(workflow, self.workflows))
        } else {
            workflows
        };
        match pending.workflow_ids {
            Some(ids) => state::resolved(ids, current),
            None => current,
        }
    }

    /// The workflows that nothing is known of yet.
    pub open spec fn unknown_ids(self, workflows: Seq<Workflow>) -> Seq<u64> {
        state::ids_of(workflows).filter(
            |id: u64|
                self.pending_load->0.kind != LoadKind::Refresh || first_with_id(
                    self.workflows,
                    id,
                ) is None,
        )
    }

    /// The tabs of a session whose workflows are known: those that were saved, or one of all
    /// workflows.
    pub open spec fn opened_tabs(self, workflows: Seq<Workflow>) -> Seq<TabModel> {
        match self.pending_load->0.tabs {
            Some(tabs) => tabs.map_values(
                |tab: SavedTabModel| restored_with(tab, workflows, self.numerals),
            ),
            None => seq![TabModel::start(None, state::ids_of(workflows), None, None)],
        }
    }

    /// The path that is remembered when workflows are discovered. A file that is opened is
    /// remembered then; otherwise a path that is remembered stays.
    pub open spec fn path_then(self) -> Option<Seq<char>> {
        let pending = self.pending_load->0;
        match pending.kind {
            LoadKind::Edit => pending.state_path,
            LoadKind::Refresh => self.state_path,
            LoadKind::Initial => if self.state_path is Some {
                self.state_path
            } else {
                pending.state_path
            },
        }
    }

    /// The session when workflows are discovered.
    pub open spec fn discovered(self, workflows: Seq<Workflow>) -> AppModel {
        match self.pending_load {
            None => self,
            Some(pending) => {
                let loaded = self.loaded_workflows(workflows);
                let refreshes = pending.kind == LoadKind::Refresh;
                let tabs = if refreshes {
                    self.tabs
                } else {
                    self.opened_tabs(loaded)
                };
                AppModel {
                    repository: pending.repository,
                    workflows: loaded,
                    loading_status_ids: self.unknown_ids(loaded),
                    loaded_status_count: 0,
                    state_path: self.path_then(),
                    tabs,
                    active_tab: if refreshes {
                        self.active_tab
                    } else {
                        within(pending.active_tab, tabs.len())
                    },
                    ..self
                }.repaired(
                    if refreshes {
                        Some(self.selected_ids())
                    } else {
                        None
                    },
                ).saying(
                    counted(
                        loaded.len() as int,
                        " workflows discovered; loading run status..."@,
                    ),
                )
            },
        }
    }

    /// The session when the status of a workflow is known.
    pub open spec fn status_loaded(self, workflow: Workflow) -> AppModel {
        let known = first_with_id(self.workflows, workflow.id);
        AppModel {
            loading_status_ids: excluding(self.loading_status_ids, workflow.id),
            workflows: match known {
                Some(i) => self.workflows.update(i, workflow),
                None => self.workflows,
            },
            loaded_status_count: if known is Some {
                (self.loaded_status_count + 1) as u64
            } else {
                self.loaded_status_count
            },
            ..self
        }.repaired(Some(self.selected_ids()))
    }

    /// The session when the status of a workflow could not be loaded.
    pub open spec fn status_failed(self, id: u64, name: Seq<char>, error: Seq<char>) -> AppModel {
        let failure = name + ": "@ + error;
        AppModel {
            loading_status_ids: excluding(self.loading_status_ids, id),
            loaded_status_count: if first_with_id(self.workflows, id) is Some {
                (self.loaded_status_count + 1) as u64
            } else {
                self.loaded_status_count
            },
            load_failures: self.load_failures.push(failure),
            ..self
        }.saying("E484: Could not load status for "@ + failure)
    }

    /// What is said when a load is complete.
    pub open spec fn load_summary(self) -> Seq<char> {
        let completed = counted(
            self.workflows.len() as int,
            if self.pending_load->0.kind == LoadKind::Refresh {
                " workflows refreshed"@
            } else {
                " workflows loaded"@
            },
        );
        if self.load_failures.len() == 0 {
            completed
        } else {
            completed + "; "@ + counted(
                self.load_failures.len() as int,
                " workflow statuses failed"@,
            )
        }
    }

    /// The session when a load has ended.
    pub open spec fn load_ended(self, error: Option<Seq<char>>, now: u64) -> AppModel {
        let ended = AppModel { loading_status_ids: Seq::empty(), pending_load: None, ..self };
        if self.pending_load is None {
            ended
        } else {
            AppModel { next_refresh: due_at(now, self.refresh_interval), ..ended }.saying(
                match error {
                    Some(error) => "E484: "@ + error,
                    None => self.load_summary(),
                },
            )
        }
    }

    /// The session when something happened while workflows are loaded.
    pub open spec fn load_event(self, event: LoadEvent, now: u64) -> AppModel {
        match event {
            LoadEvent::Discovered(workflows) => self.discovered(workflows@),
            LoadEvent::WorkflowLoaded(workflow) => self.status_loaded(workflow),
            LoadEvent::WorkflowFailed { id, name, error } => self.status_failed(id, name@, error@),
            LoadEvent::Fatal(error) => self.load_ended(Some(error@), now),
            LoadEvent::Complete => self.load_ended(None, now),
            LoadEvent::Stopped => self.load_ended(
                Some("workflow loading stopped unexpectedly"@),
                now,
            ),
        }
    }
}

/// What has to be done when something happened while workflows are loaded: when the load is
/// over, the runs that were gathered are kept.
pub open spec fn load_effect(event: LoadEvent) -> EffectModel {
    match event {
        LoadEvent::Fatal(_) | LoadEvent::Complete | LoadEvent::Stopped => EffectModel::SaveCache,
        _ => EffectModel::Nothing,
    }
}

/// The identifiers without one.
pub open spec fn excluding(ids: Seq<u64>, id: u64) -> Seq<u64> {
    ids.filter(|other: u64| other != id)
}

/// Takes an identifier out of a list.
fn without_id(ids: &Vec<u64>, id: u64) -> (r: Vec<u64>)
    ensures
        r@ == excluding(ids@, id),
{
    let mut r: Vec<u64> = Vec::new();
    let mut i: usize = 0;
    assert(r@ =~= excluding(ids@.take(0), id)) by {
        reveal(Seq::filter);
    }
    while i < ids.len()
        invariant
            i <= ids@.len(),
            r@ == excluding(ids@.take(i as int), id),
        decreases ids@.len() - i,
    {
        proof {
            reveal(Seq::filter);
            assert(ids@.take(i + 1).drop_last() =~= ids@.take(i as int));
        }
        if ids[i] != id {
            r.push(ids[i]);
        }
        i = i + 1;
    }
    assert(ids@.take(i as int) =~= ids@);
    r
}

impl App {
    fn unknown_statuses(&self, workflows: &Vec<Workflow>, refreshes: bool) -> (r: Vec<u64>)
        requires
            self@.pending_load is Some,
            refreshes == (self@.pending_load->0.kind == LoadKind::Refresh),
        ensures
            r@ == self@.unknown_ids(workflows@),
    {
        let ghost all = state::ids_of(workflows@);
        let ghost test = |id: u64|
            self@.pending_load->0.kind != LoadKind::Refresh || first_with_id(
                self@.workflows,
                id,
            ) is None;
        let mut r: Vec<u64> = Vec::new();
        let mut i: usize = 0;
        assert(r@ =~= all.take(0).filter(test)) by {
            reveal(Seq::filter);
        }
        while i < workflows.len()
            invariant
                i <= workflows@.len(),
                all == state::ids_of(workflows@),
                refreshes == (self@.pending_load->0.kind == LoadKind::Refresh),
                test == (|id: u64|
                    self@.pending_load->0.kind != LoadKind::Refresh || first_with_id(
                        self@.workflows,
                        id,
                    ) is None),
                r@ == all.take(i as int).filter(test),
            decreases workflows@.len() - i,
        {
            proof {
                reveal(Seq::filter);
                assert(all.take(i + 1).drop_last() =~= all.take(i as int));
                assert(all.take(i + 1).last() == workflows@[i as int].id);
            }
            if !refreshes || find_first(&self.workflows, workflows[i].id).is_none() {
                r.push(workflows[i].id);
            }
            i = i + 1;
        }
        assert(all.take(i as int) =~= all);
        r
    }

    /// Shows the workflows that were discovered.
    pub fn apply_discovered_workflows(&mut self, workflows: Vec<Workflow>)
        requires
            old(self)@.is_sound(),
        ensures
            final(self)@ == old(self)@.discovered(workflows@),
            final(self)@.is_sound(),
    {
        let ghost before = self@;
        let ghost found = workflows@;
        let selected_ids = self.selected_workflow_ids();
        let pending = match &self.pending_load {
            Some(pending) => pending,
            None => {
                return;
            },
        };
        let refreshes = match pending.kind {
            LoadKind::Refresh => true,
            _ => false,
        };
        let current = if refreshes {
            carry_over(&workflows, &self.workflows)
        } else {
            workflows
        };
        let loaded = match &pending.workflow_ids {
            Some(ids) => state::resolve_ids(ids, &current),
            None => current,
        };
        assert(loaded@ == before.loaded_workflows(found));
        let loading_status_ids = self.unknown_statuses(&loaded, refreshes);
        let repository = pending.repository.clone();
        let state_path = match pending.kind {
            LoadKind::Edit => cache::clone_text(&pending.state_path),
            LoadKind::Refresh => cache::clone_text(&self.state_path),
            LoadKind::Initial => if self.state_path.is_some() {
                cache::clone_text(&self.state_path)
            } else {
                cache::clone_text(&pending.state_path)
            },
        };
        assert(text::view_opt(state_path) == before.path_then());
        let count = loaded.len();
        if !refreshes {
            let tabs = match &pending.tabs {
                Some(tabs) => restore_all(tabs, &loaded, &self.numerals),
                None => {
                    let tab = Tab::new(None, state::workflow_ids(loaded.as_slice()), None, None);
                    one_tab(tab)
                },
            };
            assert(tab_views(tabs@).len() == tabs@.len());
            assert(tab_views(tabs@) == before.opened_tabs(loaded@));
            let active_tab = if pending.active_tab < tabs.len() {
                pending.active_tab
            } else {
                tabs.len() - 1
            };
            self.tabs = tabs;
            self.active_tab = active_tab;
        }
        self.repository = repository;
        self.workflows = loaded;
        self.loading_status_ids = loading_status_ids;
        self.loaded_status_count = 0;
        self.state_path = state_path;
        let ghost middle = self@;
        let wanted = if refreshes {
            Some(selected_ids)
        } else {
            None
        };
        self.repair_all_tab_selections(wanted);
        proof {
            lemma_repaired_sound(middle, wanted_view(wanted));
        }
        self.message = Some(count_text(count, " workflows discovered; loading run status..."));
        assert(self@ =~= before.discovered(found));
    }

    fn finish_loading(&mut self, error: Option<String>, now: u64)
        requires
            old(self)@.is_sound(),
        ensures
            final(self)@ == old(self)@.load_ended(text::view_opt(error), now),
            final(self)@.is_sound(),
    {
        let ghost before = self@;
        self.loading_status_ids = Vec::new();
        let kind = match &self.pending_load {
            Some(pending) => pending.kind,
            None => {
                assert(self@ =~= before.load_ended(text::view_opt(error), now));
                return;
            },
        };
        self.pending_load = None;
        assert(text::views(self.load_failures@).len() == self.load_failures@.len());
        self.message =
        Some(
            match error {
                Some(error) => text::concat("E484: ", error.as_str()),
                None => {
                    let mut summary = match kind {
                        LoadKind::Refresh => count_text(
                            self.workflows.len(),
                            " workflows refreshed",
                        ),
                        _ => count_text(self.workflows.len(), " workflows loaded"),
                    };
                    if self.load_failures.len() > 0 {
                        summary.append("; ");
                        summary.append(
                            count_text(
                                self.load_failures.len(),
                                " workflow statuses failed",
                            ).as_str(),
                        );
                    }
                    summary
                },
            },
        );
        self.next_refresh = due(now, self.refresh_interval);
        assert(self@ =~= before.load_ended(text::view_opt(error), now));
    }

    /// Takes notice of what happened while workflows are loaded.
    pub fn handle_load_event(&mut self, event: LoadEvent, now: u64) -> (r: Effect)
        requires
            old(self)@.is_sound(),
            old(self)@.loaded_status_count < u64::MAX,
        ensures
            final(self)@ == old(self)@.load_event(event, now),
            r@ == load_effect(event),
            final(self)@.is_sound(),
    {
        let ghost before = self@;
        match event {
            LoadEvent::Discovered(workflows) => {
                self.apply_discovered_workflows(workflows);
                Effect::Nothing
            },
            LoadEvent::WorkflowLoaded(workflow) => {
                let selected_ids = self.selected_workflow_ids();
                self.loading_status_ids = without_id(&self.loading_status_ids, workflow.id);
                if let Some(i) = find_first(&self.workflows, workflow.id) {
                    self.workflows.set(i, workflow);
                    self.loaded_status_count = self.loaded_status_count + 1;
                }
                let ghost middle = self@;
                self.repair_all_tab_selections(Some(selected_ids));
                proof {
                    lemma_repaired_sound(middle, Some(before.selected_ids()));
                }
                assert(self@ =~= before.status_loaded(workflow));
                Effect::Nothing
            },
            LoadEvent::WorkflowFailed { id, name, error } => {
                self.loading_status_ids = without_id(&self.loading_status_ids, id);
                if find_first(&self.workflows, id).is_some() {
                    self.loaded_status_count = self.loaded_status_count + 1;
                }
                let mut failure = text::concat(name.as_str(), ": ");
                failure.append(error.as_str());
                self.message =
                Some(text::concat("E484: Could not load status for ", failure.as_str()));
                self.load_failures.push(failure);
                assert(self@ =~= before.status_failed(id, name@, error@));
                Effect::Nothing
            },
            LoadEvent::Fatal(error) => {
                self.finish_loading(Some(error), now);
                Effect::SaveCache
            },
            LoadEvent::Complete => {
                self.finish_loading(None, now);
                Effect::SaveCache
            },
            LoadEvent::Stopped => {
                self.finish_loading(Some("workflow loading stopped unexpectedly".to_owned()), now);
                Effect::SaveCache
            },
        }
    }
}

} // verus!
