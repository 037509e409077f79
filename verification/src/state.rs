//! Saved sessions.
use vstd::prelude::*;
use vstd::string::*;

use crate::cache;
use crate::github::Workflow;
use crate::layout::{self, ViewLayout};
use crate::repository::{Repository, RepositoryModel};
use crate::response;
use crate::text;

verus! {

/// The version of the state file that is read and written.
pub const CURRENT_VERSION: u32 = 1;

/// A saved list view besides the first one of its tab.
#[derive(Debug, PartialEq, Eq)]
pub struct ViewPane {
    pub workflow_ids: Vec<u64>,
    pub filter: Option<String>,
    pub sort: Option<String>,
    pub selected_workflow_id: Option<u64>,
}

/// What a [`ViewPane`] says.
#[verifier::ext_equal]
pub struct PaneModel {
    pub workflow_ids: Seq<u64>,
    pub filter: Option<Seq<char>>,
    pub sort: Option<Seq<char>>,
    pub selected_workflow_id: Option<u64>,
}

impl View for ViewPane {
    type V = PaneModel;

    open spec fn view(&self) -> PaneModel {
        PaneModel {
            workflow_ids: self.workflow_ids@,
            filter: text::view_opt(self.filter),
            sort: text::view_opt(self.sort),
            selected_workflow_id: self.selected_workflow_id,
        }
    }
}

/// What a list of panes says.
pub open spec fn pane_views(panes: Seq<ViewPane>) -> Seq<PaneModel> {
    panes.map_values(|pane: ViewPane| pane@)
}

/// A copy of a list of identifiers.
pub fn clone_ids(ids: &Vec<u64>) -> (r: Vec<u64>)
    ensures
        r@ == ids@,
{
    let mut r: Vec<u64> = Vec::new();
    let mut i: usize = 0;
    while i < ids.len()
        invariant
            i <= ids@.len(),
            r@ =~= ids@.take(i as int),
        decreases ids@.len() - i,
    {
        r.push(ids[i]);
        i = i + 1;
    }
    assert(r@ =~= ids@);
    r
}

impl Clone for ViewPane {
    fn clone(&self) -> (r: Self)
        ensures
            r@ == self@,
    {
        ViewPane {
            workflow_ids: clone_ids(&self.workflow_ids),
            filter: cache::clone_text(&self.filter),
            sort: cache::clone_text(&self.sort),
            selected_workflow_id: self.selected_workflow_id,
        }
    }
}

/// A saved tab.
#[derive(Debug, PartialEq, Eq)]
pub struct ViewTab {
    pub name: Option<String>,
    pub workflow_ids: Vec<u64>,
    pub filter: Option<String>,
    pub sort: Option<String>,
    pub selected_workflow_id: Option<u64>,
    pub additional_views: Vec<ViewPane>,
    pub layout: ViewLayout,
    pub active_view: usize,
}

/// What a [`ViewTab`] says: its name, its views, how they share the screen, and which of them
/// is active.
#[verifier::ext_equal]
pub struct SavedTabModel {
    pub name: Option<Seq<char>>,
    pub views: Seq<PaneModel>,
    pub layout: ViewLayout,
    pub active_view: usize,
}

impl ViewTab {
    /// The first view.
    pub open spec fn primary(self) -> PaneModel {
        PaneModel {
            workflow_ids: self.workflow_ids@,
            filter: text::view_opt(self.filter),
            sort: text::view_opt(self.sort),
            selected_workflow_id: self.selected_workflow_id,
        }
    }
}

impl View for ViewTab {
    type V = SavedTabModel;

    open spec fn view(&self) -> SavedTabModel {
        SavedTabModel {
            name: text::view_opt(self.name),
            views: seq![self.primary()] + pane_views(self.additional_views@),
            layout: self.layout,
            active_view: self.active_view,
        }
    }
}

impl SavedTabModel {
    /// Whether the tab can be shown: its layout is one of its views.
    pub open spec fn is_sound(self) -> bool {
        self.views.len() > 0 && layout::layout_fits(self.layout, self.views.len() as int)
    }

    /// An unnamed tab with one view of some workflows.
    pub open spec fn plain(workflow_ids: Seq<u64>, selected: Option<u64>) -> SavedTabModel {
        SavedTabModel {
            name: None,
            views: seq![
                PaneModel {
                    workflow_ids,
                    filter: None,
                    sort: None,
                    selected_workflow_id: selected,
                },
            ],
            layout: ViewLayout::Pane { index: 0 },
            active_view: 0,
        }
    }
}

/// What a list of saved tabs says.
pub open spec fn saved_tab_views(tabs: Seq<ViewTab>) -> Seq<SavedTabModel> {
    tabs.map_values(|tab: ViewTab| tab@)
}

/// Whether there is a tab, and all can be shown.
pub open spec fn tabs_sound(tabs: Seq<SavedTabModel>) -> bool {
    tabs.len() > 0 && forall|i: int| 0 <= i < tabs.len() ==> (#[trigger] tabs[i]).is_sound()
}

/// Tells whether there is a tab, and all can be shown.
pub fn are_sound(tabs: &Vec<ViewTab>) -> (r: bool)
    ensures
        r == tabs_sound(saved_tab_views(tabs@)),
{
    let ghost all = saved_tab_views(tabs@);
    if tabs.len() == 0 {
        return false;
    }
    let mut i: usize = 0;
    while i < tabs.len()
        invariant
            i <= tabs@.len(),
            all == saved_tab_views(tabs@),
            forall|j: int| 0 <= j < i ==> (#[trigger] all[j]).is_sound(),
        decreases tabs@.len() - i,
    {
        assert(all[i as int] == tabs@[i as int]@);
        let tab = &tabs[i];
        let count: u128 = tab.additional_views.len() as u128 + 1;
        if !layout::is_shown_with(&tab.layout, count) {
            assert(!all[i as int].is_sound());
            return false;
        }
        i = i + 1;
    }
    true
}

impl Clone for ViewTab {
    fn clone(&self) -> (r: Self)
        ensures
            r@ == self@,
    {
        let mut additional_views: Vec<ViewPane> = Vec::new();
        let ghost all = pane_views(self.additional_views@);
        let mut i: usize = 0;
        while i < self.additional_views.len()
            invariant
                i <= self.additional_views@.len(),
                all == pane_views(self.additional_views@),
                pane_views(additional_views@) =~= all.take(i as int),
            decreases self.additional_views@.len() - i,
        {
            let ghost before = additional_views@;
            additional_views.push(self.additional_views[i].clone());
            assert(pane_views(additional_views@) =~= pane_views(before).push(all[i as int]));
            i = i + 1;
        }
        assert(all.take(i as int) =~= all);
        ViewTab {
            name: cache::clone_text(&self.name),
            workflow_ids: clone_ids(&self.workflow_ids),
            filter: cache::clone_text(&self.filter),
            sort: cache::clone_text(&self.sort),
            selected_workflow_id: self.selected_workflow_id,
            additional_views,
            layout: self.layout.clone(),
            active_view: self.active_view,
        }
    }
}

/// A copy of a list of saved tabs.
pub fn clone_tabs(tabs: &Vec<ViewTab>) -> (r: Vec<ViewTab>)
    ensures
        saved_tab_views(r@) == saved_tab_views(tabs@),
{
    let ghost all = saved_tab_views(tabs@);
    let mut r: Vec<ViewTab> = Vec::new();
    let mut i: usize = 0;
    while i < tabs.len()
        invariant
            i <= tabs@.len(),
            all == saved_tab_views(tabs@),
            saved_tab_views(r@) =~= all.take(i as int),
        decreases tabs@.len() - i,
    {
        let ghost before = r@;
        r.push(tabs[i].clone());
        assert(saved_tab_views(r@) =~= saved_tab_views(before).push(all[i as int]));
        i = i + 1;
    }
    assert(all.take(i as int) =~= all);
    r
}

impl ViewTab {
    /// An unnamed tab with one view of some workflows.
    pub fn plain(workflow_ids: Vec<u64>, selected: Option<u64>) -> (r: Self)
        ensures
            r@ == SavedTabModel::plain(workflow_ids@, selected),
    {
        let r = ViewTab {
            name: None,
            workflow_ids,
            filter: None,
            sort: None,
            selected_workflow_id: selected,
            additional_views: Vec::new(),
            layout: ViewLayout::Pane { index: 0 },
            active_view: 0,
        };
        assert(r@.views =~= SavedTabModel::plain(workflow_ids@, selected).views);
        r
    }
}

/// A session: the repository, the workflows that are monitored, and the tabs.
#[derive(Debug, PartialEq, Eq)]
pub struct ViewState {
    pub repository: Repository,
    pub workflow_ids: Vec<u64>,
    pub tabs: Vec<ViewTab>,
    pub active_tab: usize,
}

/// What a [`ViewState`] says.
#[verifier::ext_equal]
pub struct StateModel {
    pub repository: RepositoryModel,
    pub workflow_ids: Seq<u64>,
    pub tabs: Seq<SavedTabModel>,
    pub active_tab: usize,
}

impl View for ViewState {
    type V = StateModel;

    open spec fn view(&self) -> StateModel {
        StateModel {
            repository: self.repository@,
            workflow_ids: self.workflow_ids@,
            tabs: saved_tab_views(self.tabs@),
            active_tab: self.active_tab,
        }
    }
}

/// The identifiers of some workflows.
pub open spec fn ids_of(workflows: Seq<Workflow>) -> Seq<u64> {
    workflows.map_values(|workflow: Workflow| workflow.id)
}

/// Lists the identifiers of some workflows.
pub fn workflow_ids(workflows: &[Workflow]) -> (r: Vec<u64>)
    ensures
        r@ == ids_of(workflows@),
{
    let mut r: Vec<u64> = Vec::new();
    let mut i: usize = 0;
    while i < workflows.len()
        invariant
            i <= workflows@.len(),
            r@ =~= ids_of(workflows@).take(i as int),
        decreases workflows@.len() - i,
    {
        r.push(workflows[i].id);
        i = i + 1;
    }
    assert(ids_of(workflows@).take(i as int) =~= ids_of(workflows@));
    r
}

/// The last workflow with an identifier.
pub open spec fn last_with_id(workflows: Seq<Workflow>, id: u64) -> Option<Workflow>
    decreases workflows.len(),
{
    if workflows.len() == 0 {
        None
    } else if workflows.last().id == id {
        Some(workflows.last())
    } else {
        last_with_id(workflows.drop_last(), id)
    }
}

/// The workflows with some identifiers, in the order of the identifiers. What is not there is
/// left out, and no workflow comes twice.
pub open spec fn resolved(ids: Seq<u64>, workflows: Seq<Workflow>) -> Seq<Workflow>
    decreases ids.len(),
{
    if ids.len() == 0 {
        Seq::empty()
    } else {
        let before = resolved(ids.drop_last(), workflows);
        match last_with_id(workflows, ids.last()) {
            Some(workflow) => if ids.drop_last().contains(ids.last()) {
                before
            } else {
                before.push(workflow)
            },
            None => before,
        }
    }
}

/// Finds the last workflow with an identifier.
pub fn find_last(workflows: &Vec<Workflow>, id: u64) -> (r: Option<usize>)
    ensures
        match r {
            Some(i) => i < workflows@.len() && last_with_id(workflows@, id) == Some(
                workflows@[i as int],
            ),
            None => last_with_id(workflows@, id) is None,
        },
{
    let mut i: usize = workflows.len();
    assert(workflows@.take(i as int) =~= workflows@);
    while i > 0
        invariant
            i <= workflows@.len(),
            last_with_id(workflows@, id) == last_with_id(workflows@.take(i as int), id),
        decreases i,
    {
        assert(workflows@.take(i as int).drop_last() =~= workflows@.take(i - 1));
        if workflows[i - 1].id == id {
            return Some(i - 1);
        }
        i = i - 1;
    }
    None
}

/// Finds an identifier among some.
pub fn has_id(ids: &Vec<u64>, upto: usize, id: u64) -> (r: bool)
    requires
        upto <= ids@.len(),
    ensures
        r == ids@.take(upto as int).contains(id),
{
    let mut i: usize = 0;
    while i < upto
        invariant
            i <= upto <= ids@.len(),
            forall|j: int| 0 <= j < i ==> ids@[j] != id,
        decreases upto - i,
    {
        if ids[i] == id {
            assert(ids@.take(upto as int)[i as int] == id);
            return true;
        }
        i = i + 1;
    }
    false
}

/// Picks the workflows with some identifiers, in the order of the identifiers.
pub fn resolve_ids(ids: &Vec<u64>, workflows: &Vec<Workflow>) -> (r: Vec<Workflow>)
    ensures
        r@ == resolved(ids@, workflows@),
{
    let mut r: Vec<Workflow> = Vec::new();
    let mut i: usize = 0;
    assert(r@ =~= resolved(ids@.take(0), workflows@));
    while i < ids.len()
        invariant
            i <= ids@.len(),
            r@ == resolved(ids@.take(i as int), workflows@),
        decreases ids@.len() - i,
    {
        assert(ids@.take(i + 1).drop_last() =~= ids@.take(i as int));
        if let Some(at) = find_last(workflows, ids[i]) {
            if !has_id(ids, i, ids[i]) {
                r.push(workflows[at].clone());
            }
        }
        i = i + 1;
    }
    assert(ids@.take(i as int) =~= ids@);
    r
}

impl ViewState {
    /// A session of some workflows, with one unnamed tab that shows all of them.
    pub fn new(repository: Repository, workflows: &[Workflow]) -> (r: Self)
        ensures
            r@ == (StateModel {
                repository: repository@,
                workflow_ids: ids_of(workflows@),
                tabs: seq![SavedTabModel::plain(ids_of(workflows@), None)],
                active_tab: 0,
            }),
    {
        let mut tabs: Vec<ViewTab> = Vec::new();
        tabs.push(ViewTab::plain(workflow_ids(workflows), None));
        assert(saved_tab_views(tabs@) =~= seq![SavedTabModel::plain(ids_of(workflows@), None)]);
        ViewState { repository, workflow_ids: workflow_ids(workflows), tabs, active_tab: 0 }
    }

    /// A session of some workflows and tabs.
    pub fn with_tabs(
        repository: Repository,
        workflows: &[Workflow],
        tabs: Vec<ViewTab>,
        active_tab: usize,
    ) -> (r: Self)
        ensures
            r@ == (StateModel {
                repository: repository@,
                workflow_ids: ids_of(workflows@),
                tabs: saved_tab_views(tabs@),
                active_tab,
            }),
    {
        ViewState { repository, workflow_ids: workflow_ids(workflows), tabs, active_tab }
    }

    /// Picks the workflows of the session from current ones, in the saved order.
    pub fn resolve_workflows(&self, workflows: Vec<Workflow>) -> (r: Vec<Workflow>)
        ensures
            r@ == resolved(self@.workflow_ids, workflows@),
    {
        resolve_ids(&self.workflow_ids, &workflows)
    }
}

/// A state file, as it was read.
#[derive(Debug, PartialEq, Eq)]
pub struct StoredViewState {
    pub version: u32,
    pub repository: Repository,
    pub workflow_ids: Vec<u64>,
    /// The identifiers of the workflows that older files hold in place of `workflow_ids`.
    pub workflows: Vec<u64>,
    pub tabs: Vec<ViewTab>,
    pub active_tab: usize,
}

/// What is wrong with a state file.
#[derive(Debug, PartialEq, Eq)]
pub enum Error {
    Read { path: String, source: String },
    Deserialize { path: String, source: String },
    UnsupportedVersion { found: u32 },
    Serialize(String),
    Write { path: String, source: String },
    Refresh(response::Error),
}

/// What an [`Error`] says.
pub enum StateErrorModel {
    Read { path: Seq<char>, source: Seq<char> },
    Deserialize { path: Seq<char>, source: Seq<char> },
    UnsupportedVersion { found: u32 },
    Serialize(Seq<char>),
    Write { path: Seq<char>, source: Seq<char> },
    Refresh(response::ErrorModel),
}

impl View for Error {
    type V = StateErrorModel;

    open spec fn view(&self) -> StateErrorModel {
        match self {
            Error::Read { path, source } => StateErrorModel::Read { path: path@, source: source@ },
            Error::Deserialize { path, source } => StateErrorModel::Deserialize {
                path: path@,
                source: source@,
            },
            Error::UnsupportedVersion { found } => StateErrorModel::UnsupportedVersion {
                found: *found,
            },
            Error::Serialize(source) => StateErrorModel::Serialize(source@),
            Error::Write { path, source } => StateErrorModel::Write { path: path@, source: source@ },
            Error::Refresh(error) => StateErrorModel::Refresh(error@),
        }
    }
}

impl StateErrorModel {
    /// The error in words.
    pub open spec fn words(self) -> Seq<char> {
        match self {
            StateErrorModel::Read { path, source } => "could not read state file "@ + path + ": "@
                + source,
            StateErrorModel::Deserialize { path, source } => "state file "@ + path
                + " is not valid JSON: "@ + source,
            StateErrorModel::UnsupportedVersion { found } => "state file version "@ + text::decimal(
                found as nat,
            ) + " is not supported (expected 1)"@,
            StateErrorModel::Serialize(source) => "could not serialize view state: "@ + source,
            StateErrorModel::Write { path, source } => "could not write state file "@ + path
                + ": "@ + source,
            StateErrorModel::Refresh(error) => "could not refresh saved workflows: "@
                + error.words(),
        }
    }
}

fn four(a: &str, b: &str, c: &str, d: &str) -> (r: String)
    ensures
        r@ == a@ + b@ + c@ + d@,
{
    let mut r = text::concat(a, b);
    r.append(c);
    r.append(d);
    r
}

impl Error {
    /// Puts the error in words.
    pub fn message(&self) -> (r: String)
        ensures
            r@ == self@.words(),
    {
        match self {
            Error::Read { path, source } => four(
                "could not read state file ",
                path.as_str(),
                ": ",
                source.as_str(),
            ),
            Error::Deserialize { path, source } => four(
                "state file ",
                path.as_str(),
                " is not valid JSON: ",
                source.as_str(),
            ),
            Error::UnsupportedVersion { found } => {
                let mut r = text::concat(
                    "state file version ",
                    text::number_text(*found as u64).as_str(),
                );
                r.append(" is not supported (expected 1)");
                r
            },
            Error::Serialize(source) => text::concat(
                "could not serialize view state: ",
                source.as_str(),
            ),
            Error::Write { path, source } => four(
                "could not write state file ",
                path.as_str(),
                ": ",
                source.as_str(),
            ),
            Error::Refresh(error) => text::concat(
                "could not refresh saved workflows: ",
                error.message().as_str(),
            ),
        }
    }
}

impl StoredViewState {
    /// The session that the file gives. Older files hold the workflows themselves in place of
    /// their identifiers, and no tabs: they give one unnamed tab with one view.
    pub open spec fn session(self) -> Result<StateModel, StateErrorModel> {
        if self.version != CURRENT_VERSION {
            Err(StateErrorModel::UnsupportedVersion { found: self.version })
        } else {
            let ids = if self.workflow_ids@.len() == 0 {
                self.workflows@
            } else {
                self.workflow_ids@
            };
            Ok(
                StateModel {
                    repository: self.repository@,
                    workflow_ids: ids,
                    tabs: if self.tabs@.len() == 0 {
                        seq![SavedTabModel::plain(ids, None)]
                    } else {
                        saved_tab_views(self.tabs@)
                    },
                    active_tab: self.active_tab,
                },
            )
        }
    }
}

/// The outcome of reading a state file, by what it says.
pub open spec fn session_view(r: Result<ViewState, Error>) -> Result<StateModel, StateErrorModel> {
    match r {
        Ok(state) => Ok(state@),
        Err(error) => Err(error@),
    }
}

impl ViewState {
    /// The session that a state file gives.
    pub fn from_stored(stored: StoredViewState) -> (r: Result<ViewState, Error>)
        ensures
            session_view(r) == stored.session(),
    {
        if stored.version != CURRENT_VERSION {
            return Err(Error::UnsupportedVersion { found: stored.version });
        }
        let workflow_ids = if stored.workflow_ids.len() == 0 {
            stored.workflows
        } else {
            stored.workflow_ids
        };
        let mut tabs = stored.tabs;
        if tabs.len() == 0 {
            tabs.push(ViewTab::plain(clone_ids(&workflow_ids), None));
            assert(saved_tab_views(tabs@) =~= seq![SavedTabModel::plain(workflow_ids@, None)]);
        }
        Ok(
            ViewState {
                repository: stored.repository,
                workflow_ids,
                tabs,
                active_tab: stored.active_tab,
            },
        )
    }

    /// What is written to a state file.
    pub fn into_stored(self) -> (r: StoredViewState)
        ensures
            r.version == CURRENT_VERSION,
            r.repository@ == self@.repository,
            r.workflow_ids@ == self@.workflow_ids,
            r.workflows@.len() == 0,
            saved_tab_views(r.tabs@) == self@.tabs,
            r.active_tab == self@.active_tab,
    {
        StoredViewState {
            version: CURRENT_VERSION,
            repository: self.repository,
            workflow_ids: self.workflow_ids,
            workflows: Vec::new(),
            tabs: self.tabs,
            active_tab: self.active_tab,
        }
    }
}

/// A session survives its file: what is written of it gives the same session when it is read.
pub proof fn law_session_survives_file(state: StateModel, stored: StoredViewState)
    requires
        state.tabs.len() > 0,
        stored.version == CURRENT_VERSION,
        stored.repository@ == state.repository,
        stored.workflow_ids@ == state.workflow_ids,
        stored.workflows@.len() == 0,
        saved_tab_views(stored.tabs@) == state.tabs,
        stored.active_tab == state.active_tab,
    ensures
        stored.session() == Ok::<StateModel, StateErrorModel>(state),
{
    assert(saved_tab_views(stored.tabs@).len() == stored.tabs@.len());
    if stored.workflow_ids@.len() == 0 {
        assert(stored.workflows@ =~= stored.workflow_ids@);
    }
}

proof fn lemma_resolved_in(ids: Seq<u64>, workflows: Seq<Workflow>, w: Workflow)
    requires
        resolved(ids, workflows).contains(w),
    ensures
        ids.contains(w.id),
        last_with_id(workflows, w.id) == Some(w),
    decreases ids.len(),
{
    let all = resolved(ids, workflows);
    let k = choose|k: int| 0 <= k < all.len() && all[k] == w;
    if ids.len() > 0 {
        let front = ids.drop_last();
        let before = resolved(front, workflows);
        if k < before.len() {
            assert(before[k] == w);
            lemma_resolved_in(front, workflows, w);
            let i = choose|i: int| 0 <= i < front.len() && front[i] == w.id;
            assert(ids[i] == w.id);
        } else {
            lemma_last_with_id(workflows, ids.last());
            assert(ids[ids.len() - 1] == w.id);
        }
    }
}

proof fn lemma_last_with_id(workflows: Seq<Workflow>, id: u64)
    ensures
        match last_with_id(workflows, id) {
            Some(w) => w.id == id && workflows.contains(w),
            None => forall|w: Workflow| #[trigger] workflows.contains(w) ==> w.id != id,
        },
    decreases workflows.len(),
{
    if workflows.len() > 0 {
        let front = workflows.drop_last();
        lemma_last_with_id(front, id);
        assert(workflows[workflows.len() - 1] == workflows.last());
        match last_with_id(workflows, id) {
            Some(w) => {
                if workflows.last().id != id {
                    let i = choose|i: int| 0 <= i < front.len() && front[i] == w;
                    assert(workflows[i] == w);
                }
            },
            None => {
                assert forall|w: Workflow| #[trigger] workflows.contains(w) implies w.id != id by {
                    let i = choose|i: int| 0 <= i < workflows.len() && workflows[i] == w;
                    if i < front.len() {
                        assert(front[i] == w);
                        assert(front.contains(w));
                    }
                }
            },
        }
    }
}

/// What is picked of current workflows are workflows of the session, as they are now, and each
/// at most once.
pub proof fn law_resolve_picks_current(ids: Seq<u64>, workflows: Seq<Workflow>)
    ensures
        forall|w: Workflow|
            #[trigger] resolved(ids, workflows).contains(w) ==> ids.contains(w.id)
                && workflows.contains(w),
        forall|i: int, j: int|
            0 <= i < j < resolved(ids, workflows).len() ==> (#[trigger] resolved(
                ids,
                workflows,
            )[i]).id != (#[trigger] resolved(ids, workflows)[j]).id,
        forall|id: u64|
            #![trigger ids_of(resolved(ids, workflows)).contains(id)]
            ids.contains(id) && (exists|w: Workflow| #[trigger] workflows.contains(w) && w.id == id)
                ==> ids_of(resolved(ids, workflows)).contains(id),
    decreases ids.len(),
{
    let all = resolved(ids, workflows);
    assert forall|w: Workflow| #[trigger] all.contains(w) implies ids.contains(w.id)
        && workflows.contains(w) by {
        lemma_resolved_in(ids, workflows, w);
        lemma_last_with_id(workflows, w.id);
    }
    if ids.len() > 0 {
        let front = ids.drop_last();
        let before = resolved(front, workflows);
        let last = ids.last();
        law_resolve_picks_current(front, workflows);
        lemma_last_with_id(workflows, last);
        assert forall|i: int, j: int| 0 <= i < j < all.len() implies (#[trigger] all[i]).id != (
        #[trigger] all[j]).id by {
            if j < before.len() {
                assert(before[i].id != before[j].id);
            } else {
                assert(before.contains(before[i]));
                lemma_resolved_in(front, workflows, before[i]);
            }
        }
        assert forall|id: u64|
            #![trigger ids_of(all).contains(id)]
            ids.contains(id) && (exists|w: Workflow| #[trigger] workflows.contains(w) && w.id
                == id) implies ids_of(all).contains(id) by {
            if front.contains(id) {
                assert(ids_of(before).contains(id));
                let k = choose|k: int| 0 <= k < ids_of(before).len() && ids_of(before)[k] == id;
                assert(all[k].id == id);
                assert(ids_of(all)[k] == id);
            } else {
                let i = choose|i: int| 0 <= i < ids.len() && ids[i] == id;
                if i < front.len() {
                    assert(front[i] == id);
                }
                assert(last == id);
                assert(all[before.len() as int].id == id);
                assert(ids_of(all)[before.len() as int] == id);
            }
        }
    }
}

} // verus!
