//! How a session answers to keys, and how commands are edited and executed.
use vstd::prelude::*;
use vstd::string::*;

use crate::command::{self, Command, CommandModel};
use crate::layout::FocusDirection;
use crate::panes::{ResizeAmount, ResizeAxis};
use crate::text::{self, CharClass};
use crate::tui::{App, AppModel, Effect, EffectModel, Mode};

verus! {

broadcast use crate::text::lemma_views_push;

/// A key.
#[derive(Clone, Copy, Debug, PartialEq, Eq, Structural)]
pub enum Key {
    Char(char),
    Enter,
    Esc,
    Left,
    Right,
    Up,
    Down,
    Home,
    End,
    PageUp,
    PageDown,
    Tab,
    BackTab,
    Backspace,
    Delete,
    /// Any other key.
    Other,
}

/// A key that was pressed, and the keys that were held with it.
#[derive(Clone, Copy, Debug, PartialEq, Eq, Structural)]
pub struct KeyPress {
    pub code: Key,
    pub control: bool,
    pub shift: bool,
    pub alt: bool,
}

impl KeyPress {
    /// A key pressed alone.
    pub fn plain(code: Key) -> (r: Self)
        ensures
            r == (KeyPress { code, control: false, shift: false, alt: false }),
    {
        KeyPress { code, control: false, shift: false, alt: false }
    }
}

impl AppModel {
    /// The session with an empty command line opened.
    pub open spec fn command_opened(self) -> AppModel {
        AppModel {
            mode: Mode::Command,
            command: Seq::empty(),
            command_cursor: 0,
            history_index: None,
            history_draft: Seq::empty(),
            message: None,
            ..self
        }
    }

    /// The session with the cursor of the command line moved.
    pub open spec fn cursor_at(self, place: int) -> AppModel {
        AppModel { command_cursor: place as usize, ..self }
    }

    /// The session with a command of the history in the command line.
    pub open spec fn history_loaded(self, index: int) -> AppModel {
        AppModel {
            command: self.command_history[index],
            command_cursor: self.command_history[index].len() as usize,
            history_index: Some(index as usize),
            ..self
        }
    }

    /// The session one command further back in the history. The command that was being edited
    /// is kept.
    pub open spec fn history_back(self) -> AppModel {
        if self.command_history.len() == 0 {
            self
        } else {
            match self.history_index {
                Some(index) => self.history_loaded(
                    if index > 0 {
                        index - 1
                    } else {
                        0
                    },
                ),
                None => AppModel { history_draft: self.command, ..self }.history_loaded(
                    self.command_history.len() - 1,
                ),
            }
        }
    }

    /// The session one command further on in the history; behind its end comes the command that
    /// was being edited.
    pub open spec fn history_on(self) -> AppModel {
        match self.history_index {
            None => self,
            Some(index) => if index + 1 < self.command_history.len() {
                self.history_loaded(index + 1)
            } else {
                AppModel {
                    command: self.history_draft,
                    command_cursor: self.history_draft.len() as usize,
                    history_index: None,
                    ..self
                }
            },
        }
    }

    /// The session with a character put into the command line.
    pub open spec fn typed(self, c: char) -> AppModel {
        AppModel {
            command: self.command.insert(self.command_cursor as int, c),
            command_cursor: (self.command_cursor + 1) as usize,
            ..self
        }
    }

    /// The session with the character before the cursor deleted.
    pub open spec fn deleted_before(self) -> AppModel {
        if self.command_cursor == 0 {
            self
        } else {
            AppModel {
                command: self.command.remove(self.command_cursor - 1),
                command_cursor: (self.command_cursor - 1) as usize,
                ..self
            }
        }
    }

    /// The session with the character under the cursor deleted.
    pub open spec fn deleted_under(self) -> AppModel {
        if self.command_cursor == self.command.len() {
            self
        } else {
            AppModel { command: self.command.remove(self.command_cursor as int), ..self }
        }
    }

    /// The session when the command line has answered to a key other than Enter.
    pub open spec fn edited(self, press: KeyPress) -> AppModel {
        match press.code {
            Key::Esc => self.command_done(),
            Key::Left => self.cursor_at(
                if self.command_cursor > 0 {
                    self.command_cursor - 1
                } else {
                    0
                },
            ),
            Key::Right => self.cursor_at(
                if self.command_cursor < self.command.len() {
                    self.command_cursor + 1
                } else {
                    self.command.len() as int
                },
            ),
            Key::Home => self.cursor_at(0),
            Key::End => self.cursor_at(self.command.len() as int),
            Key::Up => self.history_back(),
            Key::Down => self.history_on(),
            Key::Backspace => self.deleted_before(),
            Key::Delete => self.deleted_under(),
            Key::Char(c) => if press.control || press.alt {
                self
            } else {
                self.typed(c)
            },
            _ => self,
        }
    }

    /// Whether a command has an outcome and leaves the session as `after`.
    #[verifier::opaque]
    pub open spec fn may_run(
        self,
        command: Seq<char>,
        now: u64,
        effect: EffectModel,
        after: AppModel,
    ) -> bool {
        match command::command_of(command) {
            CommandModel::Quit => effect is Nothing && after == (AppModel {
                should_quit: true,
                ..self
            }),
            CommandModel::Write { path } => match command::path_of(path, self.state_path) {
                Some(path) => {
                    &&& effect == EffectModel::WriteState { path, state: self.saved(), quit: false }
                    &&& after == self.command_done()
                },
                None => effect is Nothing && after == self.saying(
                    "E32: No file name"@,
                ).command_done(),
            },
            CommandModel::WriteQuit { path } => match command::path_of(path, self.state_path) {
                Some(path) => {
                    &&& effect == EffectModel::WriteState { path, state: self.saved(), quit: true }
                    &&& after == self
                },
                None => effect is Nothing && after == self.saying(
                    "E32: No file name"@,
                ).command_done(),
            },
            CommandModel::Edit { path } => match command::path_of(path, self.state_path) {
                Some(path) => {
                    &&& effect == EffectModel::ReadState { path }
                    &&& after == self.command_done()
                },
                None => effect is Nothing && after == self.saying(
                    "E32: No file name"@,
                ).command_done(),
            },
            CommandModel::Refresh => {
                &&& effect == self.refreshed().1
                &&& after == self.refreshed().0.command_done()
            },
            CommandModel::Triage => {
                &&& effect == self.triage_started().1
                &&& after == self.triage_started().0.command_done()
            },
            CommandModel::Resize { amount } => effect is Nothing && exists|resized: AppModel|
                #![trigger self.may_resize_by(amount, resized)]
                self.may_resize_by(amount, resized) && after == resized.command_done(),
            other => effect is Nothing && after == self.ran(other, command, now).command_done(),
        }
    }

    /// The session behind a command that always leaves it in one way and needs nothing from
    /// outside.
    pub open spec fn ran(self, meant: CommandModel, command: Seq<char>, now: u64) -> AppModel {
        match meant {
            CommandModel::Delete { count } => self.rows_deleted(count),
            CommandModel::BadDelete { message } => self.saying(message),
            CommandModel::RefreshRate { seconds } => self.with_refresh_rate(seconds, now),
            CommandModel::Filter { expression } => self.filtered(expression),
            CommandModel::Sort { specification } => self.sorted(specification),
            CommandModel::Split { direction } => self.split(direction),
            CommandModel::TabNew { name } => self.tab_opened(name),
            CommandModel::TabSetName { name } => self.tab_named(name),
            CommandModel::TabNext => self.at_next_tab(),
            CommandModel::TabPrevious => self.at_previous_tab(),
            CommandModel::TabClose => self.tab_closed(),
            CommandModel::Unknown => self.saying("E492: Not an editor command: "@ + command),
            _ => self,
        }
    }

    /// The session with its command recorded in the history.
    pub open spec fn recorded(self) -> AppModel {
        let command = text::trimmed(self.command);
        if command.len() == 0 {
            self
        } else {
            AppModel {
                command_history: command::recorded(self.command_history, command),
                ..self
            }
        }
    }

    /// Whether executing the command line has an outcome and leaves the session as `after`. The
    /// history is saved first, where it is kept in a file.
    pub open spec fn may_execute(self, now: u64, effect: EffectModel, after: AppModel) -> bool {
        let command = text::trimmed(self.command);
        let recorded = self.recorded();
        if command.len() > 0 && self.command_history_path is Some {
            &&& effect == EffectModel::SaveHistory {
                path: self.command_history_path->0,
                contents: command::history_text(recorded.command_history),
            }
            &&& after == recorded
        } else {
            recorded.may_run(command, now, effect, after)
        }
    }

    /// Whether the command that was recorded has an outcome and leaves the session as `after`,
    /// when the history was saved or could not be.
    pub open spec fn may_go_on(
        self,
        error: Option<Seq<char>>,
        now: u64,
        effect: EffectModel,
        after: AppModel,
    ) -> bool {
        match error {
            Some(error) => self.saying(
                "E886: Could not save command history: "@ + error,
            ).may_run(text::trimmed(self.command), now, effect, after),
            None => self.may_run(text::trimmed(self.command), now, effect, after),
        }
    }

    /// Whether a key behind Ctrl-W leaves the session as `after`.
    pub open spec fn may_answer_window_key(self, key: Key, after: AppModel) -> bool {
        let base = AppModel { pending_ctrl_w: false, ..self };
        match key {
            Key::Left | Key::Char('h') => after == base.focus_moved(FocusDirection::Left),
            Key::Down | Key::Char('j') => after == base.focus_moved(FocusDirection::Down),
            Key::Up | Key::Char('k') => after == base.focus_moved(FocusDirection::Up),
            Key::Right | Key::Char('l') => after == base.focus_moved(FocusDirection::Right),
            Key::Char('+') => base.may_resize(ResizeAxis::Height, ResizeAmount::Delta(1), after),
            Key::Char('-') => base.may_resize(ResizeAxis::Height, ResizeAmount::Delta(-1i16), after),
            Key::Char('>') => base.may_resize(ResizeAxis::Width, ResizeAmount::Delta(1), after),
            Key::Char('<') => base.may_resize(ResizeAxis::Width, ResizeAmount::Delta(-1i16), after),
            Key::Char('=') => after == base.equalized(),
            _ => after == base,
        }
    }

    /// The session when a key was pressed in Normal mode.
    pub open spec fn navigated(self, press: KeyPress) -> AppModel {
        match press.code {
            Key::Char('w') => if press.control {
                AppModel { pending_ctrl_w: true, ..self }
            } else {
                self.g_forgotten()
            },
            Key::Down | Key::Char('j') => self.moved_down(1).g_forgotten(),
            Key::Up | Key::Char('k') => self.moved_up(1).g_forgotten(),
            Key::PageDown => self.moved_down(10).g_forgotten(),
            Key::PageUp => self.moved_up(10).g_forgotten(),
            Key::Char('d') => if press.control {
                self.moved_down(10).g_forgotten()
            } else {
                self.g_forgotten()
            },
            Key::Char('u') => if press.control {
                self.moved_up(10).g_forgotten()
            } else {
                self.g_forgotten()
            },
            Key::Home => self.at_first().g_forgotten(),
            Key::End | Key::Char('G') => self.at_last().g_forgotten(),
            Key::Char('g') => if self.pending_g {
                self.at_first().g_forgotten()
            } else {
                AppModel { pending_g: true, ..self }
            },
            Key::Char(':') => self.command_opened().g_forgotten(),
            _ => self.g_forgotten(),
        }
    }

    /// The session when it is forgotten that `g` was pressed.
    pub open spec fn g_forgotten(self) -> AppModel {
        AppModel { pending_g: false, ..self }
    }

    /// Whether a key has an outcome and leaves the session as `after`.
    pub open spec fn may_answer(
        self,
        press: KeyPress,
        now: u64,
        effect: EffectModel,
        after: AppModel,
    ) -> bool {
        if press.control && (press.code == Key::BackTab || press.code == Key::Tab && press.shift) {
            effect is Nothing && after == self.at_previous_tab()
        } else if press.control && press.code == Key::Tab {
            effect is Nothing && after == self.at_next_tab()
        } else if self.mode == Mode::Command {
            if press.code == Key::Enter {
                self.may_execute(now, effect, after)
            } else {
                effect is Nothing && after == self.edited(press)
            }
        } else if self.pending_ctrl_w {
            effect is Nothing && self.may_answer_window_key(press.code, after)
        } else {
            effect is Nothing && after == self.navigated(press)
        }
    }

    /// Whether there is room for one more tab and one more view.
    pub open spec fn has_room(self) -> bool {
        self.tabs.len() < usize::MAX && self.active().views.len() < usize::MAX
    }
}

/// What came of reading the history file: its contents where there is one, or what went wrong.
pub open spec fn read_view(r: Result<Option<String>, String>) -> Result<
    Option<Seq<char>>,
    Seq<char>,
> {
    match r {
        Ok(contents) => Ok(text::view_opt(contents)),
        Err(error) => Err(error@),
    }
}

impl AppModel {
    /// The session with the history of earlier ones, given where it is kept and what came of
    /// reading it.
    pub open spec fn history_opened(
        self,
        path: Option<Seq<char>>,
        read: Result<Option<Seq<char>>, Seq<char>>,
    ) -> AppModel {
        if path is None {
            self.saying("E886: Could not determine command history path"@)
        } else {
            let kept = AppModel { command_history_path: path, ..self };
            match read {
                Ok(contents) => AppModel {
                    command_history: match contents {
                        Some(contents) => command::history_of(contents),
                        None => Seq::empty(),
                    },
                    history_index: None,
                    ..kept
                },
                Err(error) => kept.saying("E886: Could not load command history: "@ + error),
            }
        }
    }
}

impl App {
    /// Takes over the history of earlier sessions.
    pub fn open_history(&mut self, path: Option<String>, read: Result<Option<String>, String>)
        requires
            old(self)@.is_sound(),
        ensures
            final(self)@ == old(self)@.history_opened(text::view_opt(path), read_view(read)),
            final(self)@.is_sound(),
    {
        let ghost before = self@;
        if path.is_none() {
            self.message = Some("E886: Could not determine command history path".to_owned());
            return;
        }
        self.command_history_path = path;
        match read {
            Ok(contents) => {
                self.command_history =
                match contents {
                    Some(contents) => command::load_command_history(contents.as_str()),
                    None => Vec::new(),
                };
                self.history_index = None;
            },
            Err(error) => {
                self.message =
                Some(text::concat("E886: Could not load command history: ", error.as_str()));
            },
        }
        assert(self@ =~= before.history_opened(text::view_opt(path), read_view(read)));
    }
}

impl App {
    fn load_history(&mut self, index: usize)
        requires
            old(self)@.is_sound(),
            index < old(self)@.command_history.len(),
        ensures
            final(self)@ == old(self)@.history_loaded(index as int),
            final(self)@.is_sound(),
    {
        let ghost before = self@;
        assert(before.command_history[index as int] == self.command_history@[index as int]@);
        self.command = self.command_history[index].clone();
        self.command_cursor = text::chars_of(self.command.as_str()).len();
        self.history_index = Some(index);
        assert(self@ =~= before.history_loaded(index as int));
    }

    /// Goes back in the history.
    pub fn previous_command(&mut self)
        requires
            old(self)@.is_sound(),
        ensures
            final(self)@ == old(self)@.history_back(),
            final(self)@.is_sound(),
    {
        assert(self@.command_history.len() == self.command_history@.len());
        if self.command_history.len() == 0 {
            return;
        }
        let index: usize = match self.history_index {
            Some(index) => if index > 0 {
                index - 1
            } else {
                0
            },
            None => {
                self.history_draft = self.command.clone();
                self.command_history.len() - 1
            },
        };
        self.load_history(index);
    }

    /// Goes on in the history.
    pub fn next_command(&mut self)
        requires
            old(self)@.is_sound(),
        ensures
            final(self)@ == old(self)@.history_on(),
            final(self)@.is_sound(),
    {
        assert(self@.command_history.len() == self.command_history@.len());
        let index: usize = match self.history_index {
            Some(index) => index,
            None => {
                return;
            },
        };
        let last: usize = self.command_history.len() - 1;
        if index < last {
            self.load_history(index + 1);
        } else {
            self.command = self.history_draft.clone();
            self.command_cursor = text::chars_of(self.command.as_str()).len();
            self.history_index = None;
        }
    }

    fn type_character(&mut self, c: char)
        requires
            old(self)@.is_sound(),
        ensures
            final(self)@ == old(self)@.typed(c),
            final(self)@.is_sound(),
    {
        let command = command::insert_char(self.command.as_str(), self.command_cursor, c);
        let length: usize = text::chars_of(command.as_str()).len();
        assert(self.command_cursor < length);
        self.command = command;
        self.command_cursor = self.command_cursor + 1;
    }

    /// Deletes the character before the cursor.
    pub fn backspace_command(&mut self)
        requires
            old(self)@.is_sound(),
        ensures
            final(self)@ == old(self)@.deleted_before(),
            final(self)@.is_sound(),
    {
        if self.command_cursor == 0 {
            return;
        }
        self.command = command::remove_char(self.command.as_str(), self.command_cursor - 1);
        self.command_cursor = self.command_cursor - 1;
    }

    /// Deletes the character under the cursor.
    pub fn delete_command_character(&mut self)
        requires
            old(self)@.is_sound(),
        ensures
            final(self)@ == old(self)@.deleted_under(),
            final(self)@.is_sound(),
    {
        let length: usize = text::chars_of(self.command.as_str()).len();
        if self.command_cursor == length {
            return;
        }
        self.command = command::remove_char(self.command.as_str(), self.command_cursor);
    }

    fn run_on_view(&mut self, meant: Command, command: &str, now: u64)
        requires
            old(self)@.is_sound(),
            old(self)@.has_room(),
            meant is Delete || meant is BadDelete || meant is Filter || meant is Sort
                || meant is Split || meant is Unknown || meant is Nothing,
        ensures
            final(self)@ == old(self)@.ran(meant@, command@, now),
            final(self)@.is_sound(),
    {
        match meant {
            Command::Delete { count } => self.delete_rows(count),
            Command::BadDelete { message } => {
                self.message = Some(message);
            },
            Command::Filter { expression } => self.set_filter(&expression),
            Command::Sort { specification } => self.set_sort(&specification),
            Command::Split { direction } => self.split_view(&direction),
            Command::Unknown => {
                self.message = Some(text::concat("E492: Not an editor command: ", command));
            },
            _ => {},
        }
    }

    fn run_on_tabs(&mut self, meant: Command, command: &str, now: u64)
        requires
            old(self)@.is_sound(),
            old(self)@.has_room(),
            meant is RefreshRate || meant is TabNew || meant is TabSetName || meant is TabNext
                || meant is TabPrevious || meant is TabClose,
        ensures
            final(self)@ == old(self)@.ran(meant@, command@, now),
            final(self)@.is_sound(),
    {
        match meant {
            Command::RefreshRate { seconds } => self.set_refresh_rate(&seconds, now),
            Command::TabNew { name } => self.tab_new(&name),
            Command::TabSetName { name } => self.tab_set_name(&name),
            Command::TabNext => self.tab_next(),
            Command::TabPrevious => self.tab_previous(),
            Command::TabClose => self.tab_close(),
            _ => {},
        }
    }

    fn run_on_file(&mut self, meant: Command, command: &str, now: u64) -> (r: Effect)
        requires
            old(self)@.is_sound(),
            meant@ == command::command_of(command@),
            meant is Write || meant is WriteQuit || meant is Edit,
        ensures
            old(self)@.may_run(command@, now, r@, final(self)@),
            final(self)@.is_sound(),
    {
        proof {
            reveal(AppModel::may_run);
        }
        let (path, writes, quit) = match meant {
            Command::Write { path } => (path, true, false),
            Command::WriteQuit { path } => (path, true, true),
            Command::Edit { path } => (path, false, false),
            _ => (None, false, false),
        };
        match command::command_path(&path, &self.state_path) {
            Ok(path) => {
                if !writes {
                    self.finish_command();
                    return Effect::ReadState { path };
                }
                let state = self.saved_state();
                if !quit {
                    self.finish_command();
                }
                Effect::WriteState { path, state, quit }
            },
            Err(message) => {
                self.message = Some(message);
                self.finish_command();
                Effect::Nothing
            },
        }
    }

    fn run_resize(&mut self, amount: Option<String>, command: &str, now: u64) -> (r: Effect)
        requires
            old(self)@.is_sound(),
            command::command_of(command@) == (CommandModel::Resize {
                amount: text::view_opt(amount),
            }),
        ensures
            old(self)@.may_run(command@, now, r@, final(self)@),
            final(self)@.is_sound(),
    {
        proof {
            reveal(AppModel::may_run);
        }
        let ghost before = self@;
        proof {
            lemma_argument_words(command@);
        }
        self.resize_command(&amount);
        let ghost resized = self@;
        assert(before.may_resize_by(text::view_opt(amount), resized));
        self.finish_command();
        Effect::Nothing
    }

    fn run_command(&mut self, command: &str, now: u64) -> (r: Effect)
        requires
            old(self)@.is_sound(),
            old(self)@.has_room(),
        ensures
            old(self)@.may_run(command@, now, r@, final(self)@),
            final(self)@.is_sound(),
    {
        proof {
            reveal(AppModel::may_run);
        }
        let meant = command::parse_command(command);
        match meant {
            Command::Quit => {
                self.should_quit = true;
                Effect::Nothing
            },
            Command::Write { .. } | Command::WriteQuit { .. } | Command::Edit { .. } => {
                self.run_on_file(meant, command, now)
            },
            Command::Refresh => {
                let effect = self.refresh();
                self.finish_command();
                effect
            },
            Command::Triage => {
                let effect = self.start_triage();
                self.finish_command();
                effect
            },
            Command::Resize { amount } => self.run_resize(amount, command, now),
            Command::RefreshRate { .. }
            | Command::TabNew { .. }
            | Command::TabSetName { .. }
            | Command::TabNext
            | Command::TabPrevious
            | Command::TabClose => {
                self.run_on_tabs(meant, command, now);
                self.finish_command();
                Effect::Nothing
            },
            _ => {
                self.run_on_view(meant, command, now);
                self.finish_command();
                Effect::Nothing
            },
        }
    }

    /// Executes the command line.
    pub fn execute_command(&mut self, now: u64) -> (r: Effect)
        requires
            old(self)@.is_sound(),
            old(self)@.has_room(),
        ensures
            old(self)@.may_execute(now, r@, final(self)@),
            final(self)@.is_sound(),
    {
        let ghost before = self@;
        let command = text::trim(self.command.as_str());
        if !command.as_str().is_empty() {
            command::record_command(&mut self.command_history, command.clone());
            if let Some(path) = &self.command_history_path {
                return Effect::SaveHistory {
                    path: path.clone(),
                    contents: command::save_command_history(&self.command_history),
                };
            }
        }
        self.run_command(command.as_str(), now)
    }

    /// Executes the command that was recorded, when the history was saved or could not be.
    pub fn history_saved(&mut self, error: Option<String>, now: u64) -> (r: Effect)
        requires
            old(self)@.is_sound(),
            old(self)@.has_room(),
        ensures
            old(self)@.may_go_on(text::view_opt(error), now, r@, final(self)@),
            final(self)@.is_sound(),
    {
        if let Some(error) = error {
            self.message =
            Some(text::concat("E886: Could not save command history: ", error.as_str()));
        }
        let command = text::trim(self.command.as_str());
        self.run_command(command.as_str(), now)
    }
}

proof fn lemma_argument_words(command: Seq<char>)
    ensures
        match command::command_of(command) {
            CommandModel::Resize { amount: Some(amount) } => amount.len() == 0 || text::words_of(
                amount,
            ).len() > 0,
            _ => true,
        },
{
    reveal(command::command_of);
    match text::cut_class(command, CharClass::Space) {
        Some((_, argument)) => {
            text::lemma_trimmed_words(argument);
        },
        None => {},
    }
}

impl App {
    fn handle_command_key(&mut self, press: KeyPress, now: u64) -> (r: Effect)
        requires
            old(self)@.is_sound(),
            old(self)@.has_room(),
        ensures
            if press.code == Key::Enter {
                old(self)@.may_execute(now, r@, final(self)@)
            } else {
                r@ is Nothing && final(self)@ == old(self)@.edited(press)
            },
            final(self)@.is_sound(),
    {
        let length: usize = text::chars_of(self.command.as_str()).len();
        match press.code {
            Key::Enter => {
                return self.execute_command(now);
            },
            Key::Esc => self.finish_command(),
            Key::Left => {
                if self.command_cursor > 0 {
                    self.command_cursor = self.command_cursor - 1;
                }
            },
            Key::Right => {
                if self.command_cursor < length {
                    self.command_cursor = self.command_cursor + 1;
                }
            },
            Key::Home => {
                self.command_cursor = 0;
            },
            Key::End => {
                self.command_cursor = length;
            },
            Key::Up => self.previous_command(),
            Key::Down => self.next_command(),
            Key::Backspace => self.backspace_command(),
            Key::Delete => self.delete_command_character(),
            Key::Char(c) => {
                if !press.control && !press.alt {
                    self.type_character(c);
                }
            },
            _ => {},
        }
        Effect::Nothing
    }

    fn handle_window_key(&mut self, key: Key)
        requires
            old(self)@.is_sound(),
            old(self)@.panes_fit(),
        ensures
            old(self)@.may_answer_window_key(key, final(self)@),
            final(self)@.is_sound(),
    {
        self.pending_ctrl_w = false;
        match key {
            Key::Left | Key::Char('h') => self.move_view_focus(FocusDirection::Left),
            Key::Down | Key::Char('j') => self.move_view_focus(FocusDirection::Down),
            Key::Up | Key::Char('k') => self.move_view_focus(FocusDirection::Up),
            Key::Right | Key::Char('l') => self.move_view_focus(FocusDirection::Right),
            Key::Char('+') => self.resize_active_view(ResizeAxis::Height, ResizeAmount::Delta(1)),
            Key::Char('-') => self.resize_active_view(ResizeAxis::Height, ResizeAmount::Delta(-1)),
            Key::Char('>') => self.resize_active_view(ResizeAxis::Width, ResizeAmount::Delta(1)),
            Key::Char('<') => self.resize_active_view(ResizeAxis::Width, ResizeAmount::Delta(-1)),
            Key::Char('=') => self.equalize_splits(),
            _ => {},
        }
    }

    fn open_command(&mut self)
        requires
            old(self)@.is_sound(),
        ensures
            final(self)@ == old(self)@.command_opened(),
            final(self)@.is_sound(),
    {
        let ghost before = self@;
        self.mode = Mode::Command;
        self.command = String::new();
        self.command_cursor = 0;
        self.history_index = None;
        self.history_draft = String::new();
        self.message = None;
        assert(self@ =~= before.command_opened());
    }

    fn handle_normal_key(&mut self, press: KeyPress)
        requires
            old(self)@.is_sound(),
            old(self)@.panes_fit(),
        ensures
            if old(self)@.pending_ctrl_w {
                old(self)@.may_answer_window_key(press.code, final(self)@)
            } else {
                final(self)@ == old(self)@.navigated(press)
            },
            final(self)@.is_sound(),
    {
        if self.pending_ctrl_w {
            self.handle_window_key(press.code);
            return;
        }
        match press.code {
            Key::Char('w') => {
                if press.control {
                    self.pending_ctrl_w = true;
                    return;
                }
            },
            Key::Down | Key::Char('j') => self.select_next(1),
            Key::Up | Key::Char('k') => self.select_previous(1),
            Key::PageDown => self.select_next(10),
            Key::PageUp => self.select_previous(10),
            Key::Char('d') => {
                if press.control {
                    self.select_next(10);
                }
            },
            Key::Char('u') => {
                if press.control {
                    self.select_previous(10);
                }
            },
            Key::Home => self.select_first(),
            Key::End | Key::Char('G') => self.select_last(),
            Key::Char('g') => {
                if self.pending_g {
                    self.select_first();
                } else {
                    self.pending_g = true;
                    return;
                }
            },
            Key::Char(':') => self.open_command(),
            _ => {},
        }
        self.pending_g = false;
    }

    /// Answers to a key.
    pub fn handle_key(&mut self, press: KeyPress, now: u64) -> (r: Effect)
        requires
            old(self)@.is_sound(),
            old(self)@.has_room(),
            old(self)@.panes_fit(),
        ensures
            old(self)@.may_answer(press, now, r@, final(self)@),
            final(self)@.is_sound(),
    {
        if press.control {
            match press.code {
                Key::Tab => {
                    if press.shift {
                        self.tab_previous();
                    } else {
                        self.tab_next();
                    }
                    return Effect::Nothing;
                },
                Key::BackTab => {
                    self.tab_previous();
                    return Effect::Nothing;
                },
                _ => {},
            }
        }
        match self.mode {
            Mode::Normal => {
                self.handle_normal_key(press);
                Effect::Nothing
            },
            Mode::Command => self.handle_command_key(press, now),
        }
    }
}

} // verus!
