//! What commands do to a session.
use vstd::prelude::*;
use vstd::string::*;

use crate::cache;
use crate::github::{RunStatus, TriageModel, Workflow, WorkflowTriage};
use crate::query;
use crate::report;
use crate::state;
use crate::text;
use crate::tui::{
    self, App, AppModel, Effect, EffectModel, LoadKind, PendingLoad, PendingModel, TriageTarget,
};
use crate::view::{self, ListModel, Tab, TabModel};

verus! {

broadcast use crate::text::lemma_views_push;

/// A session stays sound where one of its tabs is exchanged for a sound one.
pub proof fn lemma_with_active_sound(app: AppModel, tab: TabModel)
    requires
        app.is_sound(),
        tab.is_sound(),
    ensures
        app.with_active(tab).is_sound(),
        app.with_active(tab).active() == tab,
{
    let after = app.with_active(tab);
    assert forall|i: int| 0 <= i < after.tabs.len() implies (#[trigger] after.tabs[i]).is_sound() by {
        if i != app.active_tab {
            assert(app.tabs[i].is_sound());
        }
    }
}

/// A session stays sound where its active view is exchanged.
pub proof fn lemma_with_view_sound(app: AppModel, view: ListModel)
    requires
        app.is_sound(),
    ensures
        app.with_active_view(view).is_sound(),
        app.with_active_view(view).active_view() == view,
        app.with_active_view(view).active().views.len() == app.active().views.len(),
{
    assert(app.tabs[app.active_tab as int].is_sound());
    lemma_with_active_sound(app, app.active().with_active(view));
}

impl AppModel {
    /// What a refresh of the workflows asks for.
    pub open spec fn refresh_load(self) -> PendingModel {
        PendingModel {
            repository: self.repository,
            workflow_ids: Some(state::ids_of(self.workflows)),
            state_path: self.state_path,
            kind: LoadKind::Refresh,
            tabs: None,
            active_tab: self.active_tab,
        }
    }

    /// The session when its workflows are to be refreshed, and what has to be done. Nothing is
    /// refreshed while a load or a triage is under way.
    pub open spec fn refreshing(self) -> (AppModel, EffectModel) {
        if self.pending_load is Some || self.triage_running {
            (self.saying("Triage or refresh already in progress"@), EffectModel::Nothing)
        } else {
            (
                self.loading(self.refresh_load()),
                EffectModel::Load {
                    repository: self.repository,
                    wanted: Some(state::ids_of(self.workflows)),
                },
            )
        }
    }

    /// The session with a triage under way.
    pub open spec fn triaging(self, target: TriageTarget, workflows: Seq<Workflow>) -> (
        AppModel,
        EffectModel,
    ) {
        (
            AppModel {
                triage_running: true,
                triage_target: Some(target),
                message: None,
                ..self
            },
            EffectModel::Triage { repository: self.repository, workflows },
        )
    }

    /// The workflows of the active view that fail.
    pub open spec fn failing(self) -> Seq<Workflow> {
        self.visible().filter(|workflow: Workflow| workflow.run_status == RunStatus::Failure)
    }

    /// The session when the workflows of the active view that fail are to be triaged, and what
    /// has to be done.
    #[verifier::opaque]
    pub open spec fn triage_started(self) -> (AppModel, EffectModel) {
        if self.triage_running {
            (self.saying("Triage already in progress"@), EffectModel::Nothing)
        } else if self.failing().len() == 0 {
            (self.saying("No failing workflows in the active view"@), EffectModel::Nothing)
        } else {
            self.triaging(TriageTarget::NewTab { insert_after: self.active_tab }, self.failing())
        }
    }

    /// The session when the workflows of the active tab are to be triaged again, and what has
    /// to be done.
    pub open spec fn triage_refreshed(self) -> (AppModel, EffectModel) {
        if self.triage_running {
            (self.saying("Triage already in progress"@), EffectModel::Nothing)
        } else if self.visible().len() == 0 {
            (self.saying("No workflows in the triage view"@), EffectModel::Nothing)
        } else {
            self.triaging(TriageTarget::RefreshTab { index: self.active_tab }, self.visible())
        }
    }

    /// The session when what the active tab shows is to be refreshed, and what has to be done.
    #[verifier::opaque]
    pub open spec fn refreshed(self) -> (AppModel, EffectModel) {
        if self.active().is_triage {
            self.triage_refreshed()
        } else {
            self.refreshing()
        }
    }

    /// The session when time has gone on, and what has to be done.
    pub open spec fn due_refresh(self, now: u64) -> (AppModel, EffectModel) {
        if self.pending_load is None && !self.triage_running && now >= self.next_refresh {
            self.refreshing()
        } else {
            (self, EffectModel::Nothing)
        }
    }
}

/// Copies of the workflows that references point at.
pub fn copied(list: &Vec<&Workflow>) -> (r: Vec<Workflow>)
    ensures
        r@ == query::pointed(list@),
{
    let ghost all = query::pointed(list@);
    let mut r: Vec<Workflow> = Vec::new();
    let mut i: usize = 0;
    while i < list.len()
        invariant
            i <= list@.len(),
            all == query::pointed(list@),
            r@ =~= all.take(i as int),
        decreases list@.len() - i,
    {
        assert(all[i as int] == *list@[i as int]);
        r.push(list[i].clone());
        i = i + 1;
    }
    assert(all.take(i as int) =~= all);
    r
}

fn copied_failing(list: &Vec<&Workflow>) -> (r: Vec<Workflow>)
    ensures
        r@ == query::pointed(list@).filter(
            |workflow: Workflow| workflow.run_status == RunStatus::Failure,
        ),
{
    let ghost all = query::pointed(list@);
    let ghost test = |workflow: Workflow| workflow.run_status == RunStatus::Failure;
    let mut r: Vec<Workflow> = Vec::new();
    let mut i: usize = 0;
    assert(r@ =~= all.take(0).filter(test)) by {
        reveal(Seq::filter);
    }
    while i < list.len()
        invariant
            i <= list@.len(),
            all == query::pointed(list@),
            test == (|workflow: Workflow| workflow.run_status == RunStatus::Failure),
            r@ == all.take(i as int).filter(test),
        decreases list@.len() - i,
    {
        proof {
            reveal(Seq::filter);
            assert(all.take(i + 1).drop_last() =~= all.take(i as int));
            assert(all.take(i + 1).last() == *list@[i as int]);
        }
        if list[i].run_status == RunStatus::Failure {
            r.push(list[i].clone());
        }
        i = i + 1;
    }
    assert(all.take(i as int) =~= all);
    r
}

impl App {
    /// Refreshes the workflows.
    pub fn refresh_workflows(&mut self) -> (r: Effect)
        requires
            old(self)@.is_sound(),
        ensures
            (final(self)@, r@) == old(self)@.refreshing(),
            final(self)@.is_sound(),
    {
        if self.is_loading() || self.triage_running {
            self.message = Some("Triage or refresh already in progress".to_owned());
            return Effect::Nothing;
        }
        let pending = PendingLoad {
            repository: self.repository.clone(),
            workflow_ids: Some(state::workflow_ids(self.workflows.as_slice())),
            state_path: cache::clone_text(&self.state_path),
            kind: LoadKind::Refresh,
            tabs: None,
            active_tab: self.active_tab,
        };
        self.start_loading(pending)
    }

    /// Refreshes the workflows where that is due.
    pub fn refresh_if_due(&mut self, now: u64) -> (r: Effect)
        requires
            old(self)@.is_sound(),
        ensures
            (final(self)@, r@) == old(self)@.due_refresh(now),
            final(self)@.is_sound(),
    {
        if !self.is_loading() && !self.triage_running && now as u128 >= self.next_refresh {
            self.refresh_workflows()
        } else {
            Effect::Nothing
        }
    }

    fn begin_triage(&mut self, target: TriageTarget, workflows: Vec<Workflow>) -> (r: Effect)
        requires
            old(self)@.is_sound(),
        ensures
            (final(self)@, r@) == old(self)@.triaging(target, workflows@),
            final(self)@.is_sound(),
    {
        let effect = Effect::Triage { repository: self.repository.clone(), workflows };
        self.triage_running = true;
        self.triage_target = Some(target);
        self.message = None;
        effect
    }

    /// Starts a triage of the workflows of the active view that fail.
    pub fn start_triage(&mut self) -> (r: Effect)
        requires
            old(self)@.is_sound(),
        ensures
            (final(self)@, r@) == old(self)@.triage_started(),
            final(self)@.is_sound(),
    {
        proof {
            reveal(AppModel::triage_started);
        }
        if self.triage_running {
            self.message = Some("Triage already in progress".to_owned());
            return Effect::Nothing;
        }
        let workflows = copied_failing(&self.visible_workflows());
        if workflows.len() == 0 {
            self.message = Some("No failing workflows in the active view".to_owned());
            return Effect::Nothing;
        }
        let target = TriageTarget::NewTab { insert_after: self.active_tab };
        self.begin_triage(target, workflows)
    }

    /// Starts a triage of the workflows of the active tab once more.
    pub fn refresh_triage(&mut self) -> (r: Effect)
        requires
            old(self)@.is_sound(),
        ensures
            (final(self)@, r@) == old(self)@.triage_refreshed(),
            final(self)@.is_sound(),
    {
        if self.triage_running {
            self.message = Some("Triage already in progress".to_owned());
            return Effect::Nothing;
        }
        let workflows = copied(&self.visible_workflows());
        if workflows.len() == 0 {
            self.message = Some("No workflows in the triage view".to_owned());
            return Effect::Nothing;
        }
        let target = TriageTarget::RefreshTab { index: self.active_tab };
        self.begin_triage(target, workflows)
    }

    /// Refreshes what the active tab shows.
    pub fn refresh(&mut self) -> (r: Effect)
        requires
            old(self)@.is_sound(),
        ensures
            (final(self)@, r@) == old(self)@.refreshed(),
            final(self)@.is_sound(),
    {
        proof {
            reveal(AppModel::refreshed);
        }
        if self.active_tab().is_triage {
            self.refresh_triage()
        } else {
            self.refresh_workflows()
        }
    }
}

/// The results of triages, with one more in place of an earlier one of its workflow.
pub open spec fn with_result(triage: Seq<TriageModel>, result: TriageModel) -> Seq<TriageModel> {
    triage.filter(|other: TriageModel| other.workflow_id != result.workflow_id).push(result)
}

/// The results of triages, with some more.
pub open spec fn with_results(triage: Seq<TriageModel>, results: Seq<TriageModel>) -> Seq<
    TriageModel,
>
    decreases results.len(),
{
    if results.len() == 0 {
        triage
    } else {
        with_result(with_results(triage, results.drop_last()), results.last())
    }
}

fn add_result(triage: &Vec<WorkflowTriage>, result: &WorkflowTriage) -> (r: Vec<WorkflowTriage>)
    ensures
        report::result_views(r@) == with_result(report::result_views(triage@), result@),
{
    let ghost all = report::result_views(triage@);
    let ghost test = |other: TriageModel| other.workflow_id != result@.workflow_id;
    let mut r: Vec<WorkflowTriage> = Vec::new();
    let mut i: usize = 0;
    assert(report::result_views(r@) =~= all.take(0).filter(test)) by {
        reveal(Seq::filter);
    }
    while i < triage.len()
        invariant
            i <= triage@.len(),
            all == report::result_views(triage@),
            test == (|other: TriageModel| other.workflow_id != result@.workflow_id),
            report::result_views(r@) == all.take(i as int).filter(test),
        decreases triage@.len() - i,
    {
        proof {
            reveal(Seq::filter);
            assert(all.take(i + 1).drop_last() =~= all.take(i as int));
            assert(all.take(i + 1).last() == triage@[i as int]@);
        }
        let ghost before = r@;
        if triage[i].workflow_id != result.workflow_id {
            r.push(triage[i].clone());
            assert(report::result_views(r@) =~= report::result_views(before).push(
                triage@[i as int]@,
            ));
        }
        i = i + 1;
    }
    assert(all.take(i as int) =~= all);
    let ghost before = r@;
    r.push(result.clone());
    assert(report::result_views(r@) =~= report::result_views(before).push(result@));
    r
}

/// The workflows of some results.
pub open spec fn result_ids(results: Seq<TriageModel>) -> Seq<u64> {
    results.map_values(|result: TriageModel| result.workflow_id)
}

impl AppModel {
    /// A triage tab with the workflows of other results, where the selection stays on its
    /// workflow as far as that is shown.
    pub open spec fn triage_tab_with(self, tab: TabModel, ids: Seq<u64>) -> TabModel {
        let before = tab.active();
        let after = ListModel { workflow_ids: ids, ..before };
        let kept = match before.selected_id(self.workflows, self.numerals) {
            Some(id) => view::row_of(after.visible(self.workflows, self.numerals), id),
            None => None,
        };
        tab.with_active(
            after.selecting(
                match kept {
                    Some(row) => Some(row as usize),
                    None => view::first_row(ids.len()),
                },
            ),
        )
    }

    /// A new triage tab.
    pub open spec fn triage_tab(ids: Seq<u64>) -> TabModel {
        let tab = TabModel::start(Some("Triage"@), ids, None, None);
        TabModel {
            is_triage: true,
            ..tab.with_active(tab.active().selecting(view::first_row(ids.len())))
        }
    }

    /// The session when a triage has ended with some results.
    pub open spec fn with_findings(
        self,
        results: Seq<TriageModel>,
        target: Option<TriageTarget>,
    ) -> AppModel {
        let ids = result_ids(results);
        let known = AppModel { triage: with_results(self.triage, results), ..self };
        let done = tui::counted(results.len() as int, " failing scheduled workflows triaged"@);
        match target {
            Some(TriageTarget::RefreshTab { index }) => if index < self.tabs.len()
                && self.tabs[index as int].is_triage {
                AppModel {
                    tabs: self.tabs.update(
                        index as int,
                        self.triage_tab_with(self.tabs[index as int], ids),
                    ),
                    ..known
                }.saying(done)
            } else {
                known.saying("E484: triage destination is no longer available"@)
            },
            Some(TriageTarget::NewTab { insert_after }) => {
                let index = if insert_after < self.tabs.len() {
                    insert_after + 1
                } else {
                    self.tabs.len() as int
                };
                AppModel {
                    tabs: self.tabs.insert(index, AppModel::triage_tab(ids)),
                    active_tab: index as usize,
                    ..known
                }.saying(done)
            },
            None => known.saying("E484: triage destination is no longer available"@),
        }
    }

    /// The session when a triage has ended.
    pub open spec fn triage_ended(self, result: Result<Seq<TriageModel>, Seq<char>>) -> AppModel {
        let ended = AppModel { triage_running: false, triage_target: None, ..self };
        match result {
            Ok(results) => ended.with_findings(results, self.triage_target),
            Err(error) => ended.saying("E484: "@ + error),
        }
    }
}

/// The outcome of a triage, by what it says.
pub open spec fn triage_view(r: Result<Vec<WorkflowTriage>, String>) -> Result<
    Seq<TriageModel>,
    Seq<char>,
> {
    match r {
        Ok(results) => Ok(report::result_views(results@)),
        Err(error) => Err(error@),
    }
}

impl App {
    fn show_findings(&mut self, results: &Vec<WorkflowTriage>, target: Option<TriageTarget>)
        requires
            old(self)@.is_sound(),
            old(self).tabs@.len() < usize::MAX,
        ensures
            final(self)@ == old(self)@.with_findings(report::result_views(results@), target),
            final(self)@.is_sound(),
    {
        let ghost before = self@;
        let ghost models = report::result_views(results@);
        let ghost ids_wanted = result_ids(models);
        let mut ids: Vec<u64> = Vec::new();
        let mut i: usize = 0;
        assert(report::result_views(self.triage@) == with_results(before.triage, models.take(0)));
        while i < results.len()
            invariant
                i <= results@.len(),
                models == report::result_views(results@),
                ids_wanted == result_ids(models),
                ids@ =~= ids_wanted.take(i as int),
                self@ == (AppModel {
                    triage: with_results(before.triage, models.take(i as int)),
                    ..before
                }),
                self.tabs@.len() < usize::MAX,
            decreases results@.len() - i,
        {
            assert(models.take(i + 1).drop_last() =~= models.take(i as int));
            assert(models.take(i + 1).last() == results@[i as int]@);
            ids.push(results[i].workflow_id);
            self.triage = add_result(&self.triage, &results[i]);
            i = i + 1;
        }
        assert(models.take(i as int) =~= models);
        assert(ids_wanted.take(i as int) =~= ids_wanted);
        let ghost known = self@;
        let count = ids.len();
        let any = ids.len() > 0;
        match target {
            Some(TriageTarget::RefreshTab { index }) => {
                if index >= self.tabs.len() || !self.tabs[index].is_triage {
                    self.message =
                    Some("E484: triage destination is no longer available".to_owned());
                    return;
                }
                assert(before.tabs[index as int].is_sound());
                assert(self@.tabs[index as int] == self.tabs@[index as int]@);
                let ghost after = before.triage_tab_with(before.tabs[index as int], ids@);
                let selected_id = self.tabs[index].active_view().selected_workflow_id(
                    self.workflows.as_slice(),
                    &self.numerals,
                );
                let ghost tabs = self@.tabs;
                self.tabs[index].active_view_mut().workflow_ids = ids;
                assert(self@.tabs =~= tabs.update(
                    index as int,
                    tabs[index as int].with_active(
                        ListModel { workflow_ids: ids@, ..tabs[index as int].active() },
                    ),
                ));
                assert(self@.tabs[index as int] == self.tabs@[index as int]@);
                let kept = match selected_id {
                    Some(id) => view::find_row(
                        &self.visible_workflows_for(self.tabs[index].active_view()),
                        id,
                    ),
                    None => None,
                };
                let selected = match kept {
                    Some(row) => Some(row),
                    None => if any {
                        Some(0)
                    } else {
                        None
                    },
                };
                let ghost tabs = self@.tabs;
                self.tabs[index].active_view_mut().table_state.select(selected);
                assert(tabs[index as int].with_active(after.active()) =~= after);
                assert(self@.tabs =~= tabs.update(index as int, after));
                assert(self@.tabs =~= before.tabs.update(index as int, after));
                proof {
                    assert forall|k: int| 0 <= k < self@.tabs.len() implies (
                    #[trigger] self@.tabs[k]).is_sound() by {
                        assert(before.tabs[k].is_sound());
                    }
                }
            },
            Some(TriageTarget::NewTab { insert_after }) => {
                let ghost wanted = AppModel::triage_tab(ids@);
                let mut tab = Tab::new(Some("Triage".to_owned()), ids, None, None);
                tab.is_triage = true;
                let selected: Option<usize> = if any {
                    Some(0)
                } else {
                    None
                };
                tab.active_view_mut().table_state.select(selected);
                assert(tab@ =~= wanted);
                let index: usize = if insert_after < self.tabs.len() {
                    insert_after + 1
                } else {
                    self.tabs.len()
                };
                let ghost tabs = self@.tabs;
                self.tabs.insert(index, tab);
                self.active_tab = index;
                assert(self@.tabs =~= tabs.insert(index as int, wanted));
                proof {
                    assert forall|k: int| 0 <= k < self@.tabs.len() implies (
                    #[trigger] self@.tabs[k]).is_sound() by {
                        if k < index {
                            assert(before.tabs[k].is_sound());
                        } else if k > index {
                            assert(before.tabs[k - 1].is_sound());
                        }
                    }
                }
            },
            None => {
                self.message = Some("E484: triage destination is no longer available".to_owned());
                return;
            },
        }
        self.message = Some(tui::count_text(count, " failing scheduled workflows triaged"));
    }

    /// Takes notice of what a triage found.
    pub fn finish_triage(&mut self, result: Result<Vec<WorkflowTriage>, String>)
        requires
            old(self)@.is_sound(),
            old(self).tabs@.len() < usize::MAX,
        ensures
            final(self)@ == old(self)@.triage_ended(triage_view(result)),
            final(self)@.is_sound(),
    {
        let target = self.triage_target;
        self.triage_running = false;
        self.triage_target = None;
        match result {
            Ok(results) => {
                self.show_findings(&results, target);
            },
            Err(error) => {
                self.message = Some(text::concat("E484: ", error.as_str()));
            },
        }
    }

    /// Takes notice that a triage ended without saying so.
    pub fn triage_stopped(&mut self)
        requires
            old(self)@.is_sound(),
        ensures
            final(self)@ == old(self)@.triage_ended(
                Err("workflow triage stopped unexpectedly"@),
            ),
            final(self)@.is_sound(),
    {
        self.triage_running = false;
        self.triage_target = None;
        self.message = Some(text::concat("E484: ", "workflow triage stopped unexpectedly"));
    }

    /// What was found out about a workflow.
    pub fn triage_of(&self, id: u64) -> (r: Option<&WorkflowTriage>)
        ensures
            report::optional_result(r) == result_of(self@.triage, id),
    {
        let ghost all = self@.triage;
        let mut i: usize = self.triage.len();
        assert(all.take(i as int) =~= all);
        while i > 0
            invariant
                i <= self.triage@.len(),
                all == report::result_views(self.triage@),
                result_of(all, id) == result_of(all.take(i as int), id),
            decreases i,
        {
            assert(all.take(i as int).drop_last() =~= all.take(i - 1));
            assert(all.take(i as int).last() == self.triage@[i - 1]@);
            if self.triage[i - 1].workflow_id == id {
                return Some(&self.triage[i - 1]);
            }
            i = i - 1;
        }
        None
    }
}

/// The last result of a workflow.
pub open spec fn result_of(triage: Seq<TriageModel>, id: u64) -> Option<TriageModel>
    decreases triage.len(),
{
    if triage.len() == 0 {
        None
    } else if triage.last().workflow_id == id {
        Some(triage.last())
    } else {
        result_of(triage.drop_last(), id)
    }
}

} // verus!
