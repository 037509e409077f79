//! The tabs of a session, and how a session is saved and loaded.
use vstd::prelude::*;
use vstd::string::*;

use crate::actions;
use crate::state::{self, SavedTabModel, StateErrorModel, StateModel, ViewState, ViewTab};
use crate::text;
use crate::tui::{
    self, App, AppModel, Effect, EffectModel, LoadKind, PendingLoad, PendingModel, TriageTarget,
};
use crate::view::{Tab, TabModel};

verus! {

/// Where the findings of a triage go when a tab was opened at `at`. The tab of a triage that is
/// run again stays the one that its findings go to.
pub open spec fn target_opened(target: Option<TriageTarget>, at: int) -> Option<TriageTarget> {
    match target {
        Some(TriageTarget::RefreshTab { index }) => if index < at {
            target
        } else if index < usize::MAX {
            Some(TriageTarget::RefreshTab { index: (index + 1) as usize })
        } else {
            None
        },
        _ => target,
    }
}

/// Where the findings of a triage go when the tab at `at` was closed. The tab of a triage that
/// is run again stays the one that its findings go to, unless it is the one that was closed.
pub open spec fn target_closed(target: Option<TriageTarget>, at: int) -> Option<TriageTarget> {
    match target {
        Some(TriageTarget::RefreshTab { index }) => if index < at {
            target
        } else if index > at {
            Some(TriageTarget::RefreshTab { index: (index - 1) as usize })
        } else {
            None
        },
        _ => target,
    }
}

fn shift_opened(target: Option<TriageTarget>, at: usize) -> (r: Option<TriageTarget>)
    ensures
        r == target_opened(target, at as int),
{
    match target {
        Some(TriageTarget::RefreshTab { index }) => if index < at {
            target
        } else if index < usize::MAX {
            Some(TriageTarget::RefreshTab { index: index + 1 })
        } else {
            None
        },
        _ => target,
    }
}

fn shift_closed(target: Option<TriageTarget>, at: usize) -> (r: Option<TriageTarget>)
    ensures
        r == target_closed(target, at as int),
{
    match target {
        Some(TriageTarget::RefreshTab { index }) => if index < at {
            target
        } else if index > at {
            Some(TriageTarget::RefreshTab { index: index - 1 })
        } else {
            None
        },
        _ => target,
    }
}

impl AppModel {
    /// What a tab is called: its name, or its place.
    pub open spec fn label(name: Option<Seq<char>>, index: int) -> Seq<char> {
        match name {
            Some(name) => name,
            None => "Tab "@ + text::decimal((index + 1) as nat),
        }
    }

    /// The session with a copy of the active tab behind it, which becomes the active one.
    #[verifier::opaque]
    pub open spec fn tab_opened(self, argument: Option<Seq<char>>) -> AppModel {
        let name = if argument is Some && argument->0.len() > 0 {
            argument
        } else {
            None
        };
        let index = self.active_tab + 1;
        AppModel {
            tabs: self.tabs.insert(index, TabModel { name, ..self.active() }),
            active_tab: index as usize,
            triage_target: target_opened(self.triage_target, index),
            ..self
        }.saying(AppModel::label(name, index) + " opened"@)
    }

    /// The session with its active tab named.
    #[verifier::opaque]
    pub open spec fn tab_named(self, argument: Option<Seq<char>>) -> AppModel {
        if argument is None || argument->0.len() == 0 {
            self.saying("E471: Argument required"@)
        } else {
            self.with_active(TabModel { name: argument, ..self.active() }).saying(
                "Tab renamed to "@ + argument->0,
            )
        }
    }

    /// The session at another tab.
    pub open spec fn at_tab(self, index: int) -> AppModel {
        AppModel { active_tab: index as usize, ..self }.saying(
            "Tab "@ + text::decimal((index + 1) as nat),
        )
    }

    /// The session at the next tab; behind the last one comes the first.
    #[verifier::opaque]
    pub open spec fn at_next_tab(self) -> AppModel {
        self.at_tab(
            if self.active_tab + 1 < self.tabs.len() {
                self.active_tab + 1
            } else {
                0
            },
        )
    }

    /// The session at the previous tab; before the first one comes the last.
    #[verifier::opaque]
    pub open spec fn at_previous_tab(self) -> AppModel {
        self.at_tab(
            if self.active_tab > 0 {
                self.active_tab - 1
            } else {
                self.tabs.len() - 1
            },
        )
    }

    /// The session with its active tab closed. The last tab is not closed but emptied.
    #[verifier::opaque]
    pub open spec fn tab_closed(self) -> AppModel {
        if self.tabs.len() == 1 {
            AppModel {
                tabs: seq![TabModel::start(None, Seq::empty(), None, None)],
                triage_target: target_closed(self.triage_target, 0),
                ..self
            }.saying("Last tab reset"@)
        } else {
            let rest = self.tabs.remove(self.active_tab as int);
            let index = tui::within(self.active_tab, rest.len());
            AppModel {
                tabs: rest,
                active_tab: index,
                triage_target: target_closed(self.triage_target, self.active_tab as int),
                ..self
            }.saying("Tab "@ + tui::counted(index + 1, " closed"@))
        }
    }

    /// The tabs that are saved, of the first ones: all but those of a triage.
    pub open spec fn normal_tabs(self, upto: int) -> Seq<SavedTabModel>
        decreases upto,
    {
        if upto <= 0 {
            Seq::empty()
        } else {
            let before = self.normal_tabs(upto - 1);
            let tab = self.tabs[upto - 1];
            if tab.is_triage {
                before
            } else {
                before.push(tab.saved(self.workflows, self.numerals))
            }
        }
    }

    /// The tabs that are saved, and which of them is active: the nearest one up to the active
    /// tab. Without any, one tab of all workflows is saved.
    pub open spec fn saved_tabs(self) -> (Seq<SavedTabModel>, usize) {
        let tabs = self.normal_tabs(self.tabs.len() as int);
        let upto = self.normal_tabs(self.active_tab + 1).len();
        if tabs.len() == 0 {
            (
                seq![
                    SavedTabModel::plain(
                        state::ids_of(self.workflows),
                        if self.workflows.len() > 0 {
                            Some(self.workflows[0].id)
                        } else {
                            None
                        },
                    ),
                ],
                0,
            )
        } else {
            (
                tabs,
                if upto > 0 {
                    (upto - 1) as usize
                } else {
                    0
                },
            )
        }
    }

    /// What is saved of the session.
    #[verifier::opaque]
    pub open spec fn saved(self) -> StateModel {
        StateModel {
            repository: self.repository,
            workflow_ids: state::ids_of(self.workflows),
            tabs: self.saved_tabs().0,
            active_tab: self.saved_tabs().1,
        }
    }

    /// The session when a state file was written, or could not be.
    pub open spec fn state_written(self, path: Seq<char>, error: Option<Seq<char>>, quit: bool) -> AppModel {
        match error {
            None => AppModel {
                state_path: Some(path),
                should_quit: self.should_quit || quit,
                ..self
            }.saying(
                "\""@ + path + "\" "@ + tui::counted(
                    self.workflows.len() as int,
                    " workflows written"@,
                ),
            ),
            Some(error) => if quit {
                self.saying("E212: "@ + error).command_done()
            } else {
                self.saying("E212: "@ + error)
            },
        }
    }

    /// The session with its command line closed.
    pub open spec fn command_done(self) -> AppModel {
        AppModel {
            command: Seq::empty(),
            command_cursor: 0,
            history_index: None,
            history_draft: Seq::empty(),
            mode: tui::Mode::Normal,
            ..self
        }
    }

    /// What a saved session asks to be loaded.
    pub open spec fn edit_load(path: Seq<char>, state: StateModel) -> PendingModel {
        PendingModel {
            repository: state.repository,
            workflow_ids: Some(state.workflow_ids),
            state_path: Some(path),
            kind: LoadKind::Edit,
            tabs: Some(state.tabs),
            active_tab: state.active_tab,
        }
    }

    /// The session when a state file was read, or could not be, and what has to be done.
    pub open spec fn state_read(
        self,
        path: Seq<char>,
        result: Result<StateModel, StateErrorModel>,
    ) -> (AppModel, EffectModel) {
        match result {
            Ok(state) => (
                self.loading(AppModel::edit_load(path, state)),
                EffectModel::Load {
                    repository: state.repository,
                    wanted: Some(state.workflow_ids),
                },
            ),
            Err(error) => (self.saying("E484: "@ + error.words()), EffectModel::Nothing),
        }
    }

    /// The session with another time between two refreshes.
    #[verifier::opaque]
    pub open spec fn with_refresh_rate(self, argument: Option<Seq<char>>, now: u64) -> AppModel {
        if argument is None || argument->0.len() == 0 {
            self.saying("E471: Argument required"@)
        } else {
            match text::read_unsigned(argument->0, u64::MAX as nat) {
                None => self.saying("E474: Invalid argument: "@ + argument->0),
                Some(seconds) => if seconds == 0 {
                    self.saying("E474: Refresh rate must be greater than zero"@)
                } else {
                    AppModel {
                        refresh_interval: seconds as u64,
                        next_refresh: tui::due_at(now, seconds as u64),
                        ..self
                    }.saying("Refresh rate set to "@ + tui::counted(seconds as int, " seconds"@))
                },
            }
        }
    }
}

/// Tells what a tab is called.
pub fn label_text(name: &Option<String>, index: usize) -> (r: String)
    requires
        index < usize::MAX,
    ensures
        r@ == AppModel::label(text::view_opt(*name), index as int),
{
    match name {
        Some(name) => name.clone(),
        None => text::concat("Tab ", text::number_text((index + 1) as u64).as_str()),
    }
}

impl App {
    /// Opens a copy of the active tab.
    pub fn tab_new(&mut self, argument: &Option<String>)
        requires
            old(self)@.is_sound(),
            old(self)@.tabs.len() < usize::MAX,
        ensures
            final(self)@ == old(self)@.tab_opened(text::view_opt(*argument)),
            final(self)@.is_sound(),
    {
        proof {
            reveal(AppModel::tab_opened);
        }
        let ghost before = self@;
        let mut tab = self.active_tab().clone();
        let name = match argument {
            Some(name) => if name.as_str().is_empty() {
                None
            } else {
                Some(name.clone())
            },
            None => None,
        };
        tab.name = name;
        assert(self@.tabs.len() == self.tabs@.len());
        let index: usize = self.active_tab + 1;
        let mut message = label_text(&tab.name, index);
        message.append(" opened");
        let ghost opened = tab@;
        self.tabs.insert(index, tab);
        self.active_tab = index;
        self.triage_target = shift_opened(self.triage_target, index);
        self.message = Some(message);
        assert(self@.tabs =~= before.tabs.insert(index as int, opened));
        assert(self@ =~= before.tab_opened(text::view_opt(*argument)));
        proof {
            assert forall|k: int| 0 <= k < self@.tabs.len() implies (
            #[trigger] self@.tabs[k]).is_sound() by {
                if k < index {
                    assert(before.tabs[k].is_sound());
                } else if k > index {
                    assert(before.tabs[k - 1].is_sound());
                } else {
                    assert(before.tabs[before.active_tab as int].is_sound());
                }
            }
        }
    }

    /// Names the active tab.
    pub fn tab_set_name(&mut self, argument: &Option<String>)
        requires
            old(self)@.is_sound(),
        ensures
            final(self)@ == old(self)@.tab_named(text::view_opt(*argument)),
            final(self)@.is_sound(),
    {
        proof {
            reveal(AppModel::tab_named);
        }
        let ghost before = self@;
        if let Some(name) = argument {
            if !name.as_str().is_empty() {
                let ghost after = TabModel { name: Some(name@), ..before.active() };
                proof {
                    assert(before.tabs[before.active_tab as int].is_sound());
                    actions::lemma_with_active_sound(before, after);
                }
                self.active_tab_mut().name = Some(name.clone());
                assert(self@ == before.with_active(after));
                self.message = Some(text::concat("Tab renamed to ", name.as_str()));
                return;
            }
        }
        self.message = Some("E471: Argument required".to_owned());
    }

    fn go_to_tab(&mut self, index: usize)
        requires
            old(self)@.is_sound(),
            index < old(self)@.tabs.len(),
        ensures
            final(self)@ == old(self)@.at_tab(index as int),
            final(self)@.is_sound(),
    {
        assert(self@.tabs.len() == self.tabs@.len());
        let count: usize = self.tabs.len();
        assert(index < count);
        self.active_tab = index;
        self.message =
        Some(text::concat("Tab ", text::number_text((index + 1) as u64).as_str()));
    }

    /// Goes to the next tab.
    pub fn tab_next(&mut self)
        requires
            old(self)@.is_sound(),
        ensures
            final(self)@ == old(self)@.at_next_tab(),
            final(self)@.is_sound(),
    {
        proof {
            reveal(AppModel::at_next_tab);
        }
        assert(self@.tabs.len() == self.tabs@.len());
        let last: usize = self.tabs.len() - 1;
        if self.active_tab < last {
            self.go_to_tab(self.active_tab + 1);
        } else {
            self.go_to_tab(0);
        }
    }

    /// Goes to the previous tab.
    pub fn tab_previous(&mut self)
        requires
            old(self)@.is_sound(),
        ensures
            final(self)@ == old(self)@.at_previous_tab(),
            final(self)@.is_sound(),
    {
        proof {
            reveal(AppModel::at_previous_tab);
        }
        assert(self@.tabs.len() == self.tabs@.len());
        if self.active_tab > 0 {
            self.go_to_tab(self.active_tab - 1);
        } else {
            self.go_to_tab(self.tabs.len() - 1);
        }
    }

    /// Closes the active tab.
    pub fn tab_close(&mut self)
        requires
            old(self)@.is_sound(),
        ensures
            final(self)@ == old(self)@.tab_closed(),
            final(self)@.is_sound(),
    {
        proof {
            reveal(AppModel::tab_closed);
        }
        let ghost before = self@;
        assert(self@.tabs.len() == self.tabs@.len());
        if self.tabs.len() == 1 {
            let tab = Tab::new(None, Vec::new(), None, None);
            self.tabs = tui::one_tab(tab);
            self.triage_target = shift_closed(self.triage_target, 0);
            self.message = Some("Last tab reset".to_owned());
            assert(self@ =~= before.tab_closed());
            return;
        }
        self.tabs.remove(self.active_tab);
        self.triage_target = shift_closed(self.triage_target, self.active_tab);
        assert(self@.tabs =~= before.tabs.remove(before.active_tab as int));
        if self.active_tab >= self.tabs.len() {
            self.active_tab = self.tabs.len() - 1;
        }
        let count: usize = self.tabs.len();
        assert(self.active_tab < count);
        self.message =
        Some(text::concat("Tab ", tui::count_text(self.active_tab + 1, " closed").as_str()));
        assert(self@ =~= before.tab_closed());
        proof {
            assert forall|k: int| 0 <= k < self@.tabs.len() implies (
            #[trigger] self@.tabs[k]).is_sound() by {
                if k < before.active_tab {
                    assert(before.tabs[k].is_sound());
                } else {
                    assert(before.tabs[k + 1].is_sound());
                }
            }
        }
    }

    /// The tabs that are saved, and which of them is active.
    pub fn persisted_tabs(&self) -> (r: (Vec<ViewTab>, usize))
        requires
            self@.is_sound(),
        ensures
            (state::saved_tab_views(r.0@), r.1) == self@.saved_tabs(),
    {
        let mut tabs: Vec<ViewTab> = Vec::new();
        let mut upto: usize = 0;
        let mut i: usize = 0;
        assert(state::saved_tab_views(tabs@) =~= self@.normal_tabs(0));
        while i < self.tabs.len()
            invariant
                i <= self.tabs@.len(),
                self@.is_sound(),
                self@.tabs.len() == self.tabs@.len(),
                state::saved_tab_views(tabs@) == self@.normal_tabs(i as int),
                upto == self@.normal_tabs(
                    if i <= self.active_tab {
                        i as int
                    } else {
                        self.active_tab + 1
                    },
                ).len(),
                upto <= tabs@.len(),
            decreases self.tabs@.len() - i,
        {
            assert(self@.tabs[i as int] == self.tabs@[i as int]@);
            assert(self@.tabs[i as int].is_sound());
            if !self.tabs[i].is_triage {
                let ghost before = tabs@;
                let tab = self.tabs[i].persisted(self.workflows.as_slice(), &self.numerals);
                tabs.push(tab);
                assert(state::saved_tab_views(tabs@) =~= state::saved_tab_views(before).push(tab@));
            }
            if i <= self.active_tab {
                assert(state::saved_tab_views(tabs@).len() == tabs@.len());
                upto = tabs.len();
            }
            i = i + 1;
        }
        assert(state::saved_tab_views(tabs@).len() == tabs@.len());
        if tabs.len() == 0 {
            let first = if self.workflows.len() > 0 {
                Some(self.workflows[0].id)
            } else {
                None
            };
            tabs.push(ViewTab::plain(state::workflow_ids(self.workflows.as_slice()), first));
            assert(state::saved_tab_views(tabs@) =~= self@.saved_tabs().0);
            return (tabs, 0);
        }
        let active_tab: usize = if upto > 0 {
            upto - 1
        } else {
            0
        };
        (tabs, active_tab)
    }

    /// What is saved of the session.
    pub fn saved_state(&self) -> (r: ViewState)
        requires
            self@.is_sound(),
        ensures
            r@ == self@.saved(),
    {
        proof {
            reveal(AppModel::saved);
        }
        let (tabs, active_tab) = self.persisted_tabs();
        ViewState::with_tabs(
            self.repository.clone(),
            self.workflows.as_slice(),
            tabs,
            active_tab,
        )
    }

    /// Takes notice that a state file was written, or could not be.
    pub fn state_written(&mut self, path: String, error: Option<String>, quit: bool)
        requires
            old(self)@.is_sound(),
        ensures
            final(self)@ == old(self)@.state_written(path@, text::view_opt(error), quit),
            final(self)@.is_sound(),
    {
        let ghost before = self@;
        match error {
            None => {
                let mut message = text::concat("\"", path.as_str());
                message.append("\" ");
                message.append(
                    tui::count_text(self.workflows.len(), " workflows written").as_str(),
                );
                self.message = Some(message);
                self.state_path = Some(path);
                if quit {
                    self.should_quit = true;
                }
            },
            Some(error) => {
                self.message = Some(text::concat("E212: ", error.as_str()));
                if quit {
                    self.finish_command();
                }
            },
        }
        assert(self@ =~= before.state_written(path@, text::view_opt(error), quit));
    }

    /// Closes the command line.
    pub fn finish_command(&mut self)
        requires
            old(self)@.is_sound(),
        ensures
            final(self)@ == old(self)@.command_done(),
            final(self)@.is_sound(),
    {
        let ghost before = self@;
        self.command = String::new();
        self.command_cursor = 0;
        self.history_index = None;
        self.history_draft = String::new();
        self.mode = tui::Mode::Normal;
        assert(self@ =~= before.command_done());
    }

    /// Takes notice that a state file was read, or could not be.
    pub fn state_read(&mut self, path: String, result: Result<ViewState, state::Error>) -> (r: Effect)
        requires
            old(self)@.is_sound(),
            result matches Ok(state) ==> state::tabs_sound(state@.tabs),
        ensures
            (final(self)@, r@) == old(self)@.state_read(path@, state::session_view(result)),
            final(self)@.is_sound(),
    {
        match result {
            Ok(state) => {
                let ViewState { repository, workflow_ids, tabs, active_tab } = state;
                self.start_loading(
                    PendingLoad {
                        repository,
                        workflow_ids: Some(workflow_ids),
                        state_path: Some(path),
                        kind: LoadKind::Edit,
                        tabs: Some(tabs),
                        active_tab,
                    },
                )
            },
            Err(error) => {
                self.message = Some(text::concat("E484: ", error.message().as_str()));
                Effect::Nothing
            },
        }
    }

    /// Changes the time between two refreshes.
    pub fn set_refresh_rate(&mut self, argument: &Option<String>, now: u64)
        requires
            old(self)@.is_sound(),
        ensures
            final(self)@ == old(self)@.with_refresh_rate(text::view_opt(*argument), now),
            final(self)@.is_sound(),
    {
        proof {
            reveal(AppModel::with_refresh_rate);
        }
        let argument = match argument {
            Some(argument) => if argument.as_str().is_empty() {
                self.message = Some("E471: Argument required".to_owned());
                return;
            } else {
                argument
            },
            None => {
                self.message = Some("E471: Argument required".to_owned());
                return;
            },
        };
        match text::parse_unsigned(argument.as_str(), u64::MAX) {
            None => {
                self.message =
                Some(text::concat("E474: Invalid argument: ", argument.as_str()));
            },
            Some(seconds) => {
                if seconds == 0 {
                    self.message = Some("E474: Refresh rate must be greater than zero".to_owned());
                    return;
                }
                self.refresh_interval = seconds;
                self.next_refresh = tui::due(now, seconds);
                let mut message = text::concat(
                    "Refresh rate set to ",
                    text::number_text(seconds).as_str(),
                );
                message.append(" seconds");
                self.message = Some(message);
                assert(message@ =~= "Refresh rate set to "@ + tui::counted(
                    seconds as int,
                    " seconds"@,
                ));
            },
        }
    }
}

} // verus!
