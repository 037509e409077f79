//! The command line: commands, the line that is edited, and the history.
use vstd::prelude::*;
use vstd::string::*;

use crate::text::{self, CharClass};

verus! {

broadcast use crate::text::lemma_views_push;

/// How many commands are kept.
pub const MAX_COMMAND_HISTORY: usize = 1000;

/// What a command is about.
#[derive(Debug, PartialEq, Eq)]
pub enum Command {
    /// Leave.
    Quit,
    /// Save the session.
    Write { path: Option<String> },
    /// Save the session, and leave where that succeeded.
    WriteQuit { path: Option<String> },
    /// Load a session.
    Edit { path: Option<String> },
    /// Refresh what the active tab shows.
    Refresh,
    /// Change how often workflows are refreshed.
    RefreshRate { seconds: Option<String> },
    /// Filter the active view.
    Filter { expression: Option<String> },
    /// Sort the active view.
    Sort { specification: Option<String> },
    /// Split the active view.
    Split { direction: Option<String> },
    /// Resize the active view.
    Resize { amount: Option<String> },
    /// Duplicate the active tab.
    TabNew { name: Option<String> },
    /// Name the active tab.
    TabSetName { name: Option<String> },
    /// Find out why workflows fail.
    Triage,
    /// Go to the next tab.
    TabNext,
    /// Go to the previous tab.
    TabPrevious,
    /// Close the active tab.
    TabClose,
    /// Delete rows of the active view.
    Delete { count: usize },
    /// Delete rows of the active view, but not in a way that makes sense.
    BadDelete { message: String },
    /// Do nothing.
    Nothing,
    /// No command.
    Unknown,
}

/// What a [`Command`] says.
pub enum CommandModel {
    Quit,
    Write { path: Option<Seq<char>> },
    WriteQuit { path: Option<Seq<char>> },
    Edit { path: Option<Seq<char>> },
    Refresh,
    RefreshRate { seconds: Option<Seq<char>> },
    Filter { expression: Option<Seq<char>> },
    Sort { specification: Option<Seq<char>> },
    Split { direction: Option<Seq<char>> },
    Resize { amount: Option<Seq<char>> },
    TabNew { name: Option<Seq<char>> },
    TabSetName { name: Option<Seq<char>> },
    Triage,
    TabNext,
    TabPrevious,
    TabClose,
    Delete { count: usize },
    BadDelete { message: Seq<char> },
    Nothing,
    Unknown,
}

impl View for Command {
    type V = CommandModel;

    open spec fn view(&self) -> CommandModel {
        match self {
            Command::Quit => CommandModel::Quit,
            Command::Write { path } => CommandModel::Write { path: text::view_opt(*path) },
            Command::WriteQuit { path } => CommandModel::WriteQuit { path: text::view_opt(*path) },
            Command::Edit { path } => CommandModel::Edit { path: text::view_opt(*path) },
            Command::Refresh => CommandModel::Refresh,
            Command::RefreshRate { seconds } => CommandModel::RefreshRate {
                seconds: text::view_opt(*seconds),
            },
            Command::Filter { expression } => CommandModel::Filter {
                expression: text::view_opt(*expression),
            },
            Command::Sort { specification } => CommandModel::Sort {
                specification: text::view_opt(*specification),
            },
            Command::Split { direction } => CommandModel::Split {
                direction: text::view_opt(*direction),
            },
            Command::Resize { amount } => CommandModel::Resize { amount: text::view_opt(*amount) },
            Command::TabNew { name } => CommandModel::TabNew { name: text::view_opt(*name) },
            Command::TabSetName { name } => CommandModel::TabSetName {
                name: text::view_opt(*name),
            },
            Command::Triage => CommandModel::Triage,
            Command::TabNext => CommandModel::TabNext,
            Command::TabPrevious => CommandModel::TabPrevious,
            Command::TabClose => CommandModel::TabClose,
            Command::Delete { count } => CommandModel::Delete { count: *count },
            Command::BadDelete { message } => CommandModel::BadDelete { message: message@ },
            Command::Nothing => CommandModel::Nothing,
            Command::Unknown => CommandModel::Unknown,
        }
    }
}

/// How a command reads that deletes rows: a `d` with an optional count behind it.
pub open spec fn delete_of(command: Seq<char>) -> Option<Result<usize, Seq<char>>> {
    let count = command.skip(1);
    if !text::begins_with(command, "d"@) {
        None
    } else if count.len() == 0 {
        Some(Ok(1))
    } else if !text::all_digits(count) {
        None
    } else {
        match text::read_digits(count, usize::MAX as nat) {
            Some(n) => if n == 0 {
                Some(Err("E16: Invalid range"@))
            } else {
                Some(Ok(n as usize))
            },
            None => Some(Err("E488: Trailing characters: "@ + count)),
        }
    }
}

/// What an outcome of [`parse_delete_command`] says.
pub open spec fn delete_view(r: Option<Result<usize, String>>) -> Option<
    Result<usize, Seq<char>>,
> {
    match r {
        Some(Ok(count)) => Some(Ok(count)),
        Some(Err(message)) => Some(Err(message@)),
        None => None,
    }
}

fn is_all_digits(s: &str) -> (r: bool)
    ensures
        r == text::all_digits(s@),
{
    let chars = text::chars_of(s);
    let mut i: usize = 0;
    while i < chars.len()
        invariant
            i <= chars@.len(),
            chars@ == s@,
            forall|j: int| 0 <= j < i ==> text::is_digit(#[trigger] s@[j]),
        decreases chars@.len() - i,
    {
        if !('0' <= chars[i] && chars[i] <= '9') {
            assert(!text::is_digit(s@[i as int]));
            return false;
        }
        i = i + 1;
    }
    true
}

/// Reads a command that deletes rows.
pub fn parse_delete_command(command: &str) -> (r: Option<Result<usize, String>>)
    ensures
        delete_view(r) == delete_of(command@),
{
    proof {
        reveal_strlit("d");
    }
    let count = match text::strip_prefix(command, "d") {
        Some(count) => count,
        None => {
            return None;
        },
    };
    if count.as_str().is_empty() {
        return Some(Ok(1));
    }
    if !is_all_digits(count.as_str()) {
        return None;
    }
    proof {
        assert(text::is_digit(count@[0]));
    }
    match text::parse_unsigned(count.as_str(), usize::MAX as u64) {
        Some(n) => if n == 0 {
            Some(Err("E16: Invalid range".to_owned()))
        } else {
            Some(Ok(n as usize))
        },
        None => Some(Err(text::concat("E488: Trailing characters: ", count.as_str()))),
    }
}

/// The name of a command and its argument, which stands behind the first blank.
pub open spec fn words_of_command(command: Seq<char>) -> (Seq<char>, Option<Seq<char>>) {
    match text::cut_class(command, CharClass::Space) {
        Some((name, argument)) => (name, Some(text::trimmed(argument))),
        None => (command, None),
    }
}

/// How a command reads.
#[verifier::opaque]
pub open spec fn command_of(command: Seq<char>) -> CommandModel {
    let (name, argument) = words_of_command(command);
    match delete_of(command) {
        Some(Ok(count)) => CommandModel::Delete { count },
        Some(Err(message)) => CommandModel::BadDelete { message },
        None => if name == "w"@ {
            CommandModel::Write { path: argument }
        } else if name == "wq"@ {
            CommandModel::WriteQuit { path: argument }
        } else if name == "e"@ {
            CommandModel::Edit { path: argument }
        } else if name == "refresh-rate"@ {
            CommandModel::RefreshRate { seconds: argument }
        } else if name == "filter"@ {
            CommandModel::Filter { expression: argument }
        } else if name == "sort"@ {
            CommandModel::Sort { specification: argument }
        } else if name == "split"@ {
            CommandModel::Split { direction: argument }
        } else if name == "resize"@ {
            CommandModel::Resize { amount: argument }
        } else if name == "tabnew"@ {
            CommandModel::TabNew { name: argument }
        } else if name == "tabsetname"@ {
            CommandModel::TabSetName { name: argument }
        } else if name == ""@ {
            CommandModel::Nothing
        } else if argument is Some {
            CommandModel::Unknown
        } else if name == "q"@ {
            CommandModel::Quit
        } else if name == "refresh"@ {
            CommandModel::Refresh
        } else if name == "triage"@ {
            CommandModel::Triage
        } else if name == "tabnext"@ || name == "tabn"@ {
            CommandModel::TabNext
        } else if name == "tabprevious"@ || name == "tabp"@ {
            CommandModel::TabPrevious
        } else if name == "tabclose"@ || name == "tabc"@ {
            CommandModel::TabClose
        } else {
            CommandModel::Unknown
        },
    }
}

/// Reads a command.
pub fn parse_command(command: &str) -> (r: Command)
    ensures
        r@ == command_of(command@),
{
    proof {
        reveal(command_of);
    }
    match parse_delete_command(command) {
        Some(Ok(count)) => {
            return Command::Delete { count };
        },
        Some(Err(message)) => {
            return Command::BadDelete { message };
        },
        None => {},
    }
    let (name, argument) = match text::split_once_class(command, CharClass::Space) {
        Some((name, argument)) => (name, Some(text::trim(argument.as_str()))),
        None => (command.to_owned(), None),
    };
    let name = name.as_str();
    if text::same(name, "w") {
        Command::Write { path: argument }
    } else if text::same(name, "wq") {
        Command::WriteQuit { path: argument }
    } else if text::same(name, "e") {
        Command::Edit { path: argument }
    } else if text::same(name, "refresh-rate") {
        Command::RefreshRate { seconds: argument }
    } else if text::same(name, "filter") {
        Command::Filter { expression: argument }
    } else if text::same(name, "sort") {
        Command::Sort { specification: argument }
    } else if text::same(name, "split") {
        Command::Split { direction: argument }
    } else if text::same(name, "resize") {
        Command::Resize { amount: argument }
    } else if text::same(name, "tabnew") {
        Command::TabNew { name: argument }
    } else if text::same(name, "tabsetname") {
        Command::TabSetName { name: argument }
    } else if text::same(name, "") {
        Command::Nothing
    } else if argument.is_some() {
        Command::Unknown
    } else if text::same(name, "q") {
        Command::Quit
    } else if text::same(name, "refresh") {
        Command::Refresh
    } else if text::same(name, "triage") {
        Command::Triage
    } else if text::same(name, "tabnext") || text::same(name, "tabn") {
        Command::TabNext
    } else if text::same(name, "tabprevious") || text::same(name, "tabp") {
        Command::TabPrevious
    } else if text::same(name, "tabclose") || text::same(name, "tabc") {
        Command::TabClose
    } else {
        Command::Unknown
    }
}

/// The path that a command is about: the one given, or else the one remembered.
pub open spec fn path_of(argument: Option<Seq<char>>, remembered: Option<Seq<char>>) -> Option<
    Seq<char>,
> {
    if argument is Some && argument->0.len() > 0 {
        argument
    } else {
        remembered
    }
}

/// Finds the path that a command is about, or tells that there is none.
pub fn command_path(argument: &Option<String>, remembered: &Option<String>) -> (r: Result<
    String,
    String,
>)
    ensures
        match path_of(text::view_opt(*argument), text::view_opt(*remembered)) {
            Some(path) => r matches Ok(given) && given@ == path,
            None => r matches Err(message) && message@ == "E32: No file name"@,
        },
{
    if let Some(path) = argument {
        if !path.as_str().is_empty() {
            return Ok(path.clone());
        }
    }
    match remembered {
        Some(path) => Ok(path.clone()),
        None => Err("E32: No file name".to_owned()),
    }
}

/// Puts a character into a text.
pub fn insert_char(s: &str, at: usize, c: char) -> (r: String)
    requires
        at <= s@.len(),
    ensures
        r@ == s@.insert(at as int, c),
{
    let chars = text::chars_of(s);
    let mut r = text::string_range(&chars, 0, at);
    r.push(c);
    r.append(text::string_range(&chars, at, chars.len()).as_str());
    assert(r@ =~= s@.insert(at as int, c));
    r
}

/// Takes a character out of a text.
pub fn remove_char(s: &str, at: usize) -> (r: String)
    requires
        at < s@.len(),
    ensures
        r@ == s@.remove(at as int),
{
    let chars = text::chars_of(s);
    let mut r = text::string_range(&chars, 0, at);
    assert(at < chars.len());
    r.append(text::string_range(&chars, at + 1, chars.len()).as_str());
    assert(r@ =~= s@.remove(at as int));
    r
}

/// The latest of some commands.
pub open spec fn latest(history: Seq<Seq<char>>) -> Seq<Seq<char>> {
    if history.len() > MAX_COMMAND_HISTORY {
        history.skip(history.len() - MAX_COMMAND_HISTORY)
    } else {
        history
    }
}

/// The history with one more command, unless it repeats the last one.
pub open spec fn recorded(history: Seq<Seq<char>>, command: Seq<char>) -> Seq<Seq<char>> {
    latest(
        if history.len() > 0 && history.last() == command {
            history
        } else {
            history.push(command)
        },
    )
}

fn keep_latest(history: &mut Vec<String>)
    ensures
        text::views(final(history)@) == latest(text::views(old(history)@)),
{
    let ghost all = text::views(history@);
    if history.len() > MAX_COMMAND_HISTORY {
        let excess: usize = history.len() - MAX_COMMAND_HISTORY;
        let kept = history.split_off(excess);
        *history = kept;
        assert(text::views(history@) =~= all.skip(excess as int));
    }
}

/// Adds a command to the history.
pub fn record_command(history: &mut Vec<String>, command: String)
    ensures
        text::views(final(history)@) == recorded(text::views(old(history)@), command@),
{
    let ghost all = text::views(history@);
    let repeats = if history.len() > 0 {
        assert(all.last() == history@.last()@);
        text::same(history[history.len() - 1].as_str(), command.as_str())
    } else {
        false
    };
    if !repeats {
        history.push(command);
    }
    keep_latest(history);
}

/// The commands that a history file holds.
pub open spec fn commands_in(lines: Seq<Seq<char>>) -> Seq<Seq<char>>
    decreases lines.len(),
{
    if lines.len() == 0 {
        Seq::empty()
    } else {
        let before = commands_in(lines.drop_last());
        let command = text::trimmed(lines.last());
        if command.len() > 0 {
            before.push(command)
        } else {
            before
        }
    }
}

/// The history that a history file gives.
pub open spec fn history_of(contents: Seq<char>) -> Seq<Seq<char>> {
    latest(commands_in(text::lines_of(contents)))
}

/// Reads the history off a history file.
pub fn load_command_history(contents: &str) -> (r: Vec<String>)
    ensures
        text::views(r@) == history_of(contents@),
{
    let lines = text::lines(contents);
    let ghost all = text::lines_of(contents@);
    let mut r: Vec<String> = Vec::new();
    let mut i: usize = 0;
    assert(text::views(r@) =~= commands_in(all.take(0)));
    while i < lines.len()
        invariant
            i <= lines@.len(),
            all == text::views(lines@),
            text::views(r@) == commands_in(all.take(i as int)),
        decreases lines@.len() - i,
    {
        assert(all.take(i + 1).drop_last() =~= all.take(i as int));
        assert(all.take(i + 1).last() == lines@[i as int]@);
        let command = text::trim(lines[i].as_str());
        if !command.as_str().is_empty() {
            r.push(command);
        }
        i = i + 1;
    }
    assert(all.take(i as int) =~= all);
    keep_latest(&mut r);
    r
}

/// What is written to the history file.
pub open spec fn history_text(history: Seq<Seq<char>>) -> Seq<char> {
    let contents = text::joined(history, "\n"@);
    if contents.len() == 0 {
        contents
    } else {
        contents.push('\n')
    }
}

/// Puts together what is written to the history file.
pub fn save_command_history(history: &Vec<String>) -> (r: String)
    ensures
        r@ == history_text(text::views(history@)),
{
    let mut contents = text::join(history, "\n");
    if !contents.as_str().is_empty() {
        contents.push('\n');
    }
    contents
}

/// Whether a text can stand in the history: it is not empty, has no blanks around it and is
/// one line.
pub open spec fn is_entry(t: Seq<char>) -> bool {
    t.len() > 0 && text::trimmed(t) == t && forall|i: int| 0 <= i < t.len() ==> t[i] != '\n'
}

/// Lines, each with a line feed behind it.
spec fn ended(list: Seq<Seq<char>>) -> Seq<char>
    decreases list.len(),
{
    if list.len() == 0 {
        Seq::empty()
    } else {
        list[0].push('\n') + ended(list.skip(1))
    }
}

proof fn lemma_ended_push(list: Seq<Seq<char>>, t: Seq<char>)
    ensures
        ended(list.push(t)) == ended(list) + t.push('\n'),
    decreases list.len(),
{
    if list.len() == 0 {
        assert(list.push(t).skip(1) =~= Seq::<Seq<char>>::empty());
        assert(list.push(t)[0] == t);
        assert(ended(Seq::<Seq<char>>::empty()) =~= Seq::<char>::empty());
        assert(ended(list.push(t)) =~= t.push('\n'));
        assert(ended(list) + t.push('\n') =~= t.push('\n'));
    } else {
        lemma_ended_push(list.skip(1), t);
        assert(list.push(t).skip(1) =~= list.skip(1).push(t));
        assert(ended(list.push(t)) =~= ended(list) + t.push('\n'));
    }
}

proof fn lemma_joined_ended(list: Seq<Seq<char>>)
    requires
        list.len() > 0,
    ensures
        text::joined(list, "\n"@).push('\n') == ended(list),
    decreases list.len(),
{
    reveal_strlit("\n");
    let front = list.drop_last();
    assert(list =~= front.push(list.last()));
    lemma_ended_push(front, list.last());
    if list.len() == 1 {
        assert(front =~= Seq::empty());
        assert(ended(front) + list.last().push('\n') =~= list.last().push('\n'));
    } else {
        lemma_joined_ended(front);
        assert("\n"@ =~= seq!['\n']);
        assert(text::joined(list, "\n"@).push('\n') =~= text::joined(front, "\n"@).push('\n')
            + list.last().push('\n'));
    }
}

proof fn lemma_trim_len(s: Seq<char>)
    ensures
        text::trim_start_of(s, CharClass::Space).len() <= s.len(),
        text::trim_start_of(s, CharClass::Space).len() == s.len() ==> text::trim_start_of(
            s,
            CharClass::Space,
        ) == s,
        text::trim_end_of(s, CharClass::Space).len() <= s.len(),
    decreases s.len(),
{
    if s.len() > 0 {
        lemma_trim_len(s.skip(1));
        lemma_trim_len(s.drop_last());
    }
}

proof fn lemma_entry_end(t: Seq<char>)
    requires
        is_entry(t),
    ensures
        !text::is_space(t.last()),
{
    let start = text::trim_start_of(t, CharClass::Space);
    lemma_trim_len(t);
    lemma_trim_len(start);
    lemma_trim_len(t.drop_last());
}

proof fn lemma_lines_ended(list: Seq<Seq<char>>)
    requires
        forall|i: int| 0 <= i < list.len() ==> is_entry(#[trigger] list[i]),
    ensures
        text::lines_of(ended(list)) == list,
    decreases list.len(),
{
    if list.len() == 0 {
        assert(text::lines_of(ended(list)) =~= list);
    } else {
        let t = list[0];
        let rest = list.skip(1);
        let s = ended(list);
        assert(is_entry(t));
        lemma_entry_end(t);
        assert forall|i: int| 0 <= i < rest.len() implies is_entry(#[trigger] rest[i]) by {
            assert(is_entry(list[i + 1]));
        }
        lemma_lines_ended(rest);
        text::lemma_class_from(s, CharClass::Is('\n'), 0);
        let i = text::class_from(s, CharClass::Is('\n'), 0);
        assert(s[t.len() as int] == '\n');
        if i < t.len() {
            assert(s[i] == t[i]);
        }
        assert(i == t.len());
        assert(s.take(i) =~= t);
        assert(s.skip(i + 1) =~= ended(rest));
        assert(seq![t] + rest =~= list);
    }
}

proof fn lemma_commands_in(list: Seq<Seq<char>>)
    requires
        forall|i: int| 0 <= i < list.len() ==> is_entry(#[trigger] list[i]),
    ensures
        commands_in(list) == list,
    decreases list.len(),
{
    if list.len() > 0 {
        let front = list.drop_last();
        assert forall|i: int| 0 <= i < front.len() implies is_entry(#[trigger] front[i]) by {
            assert(is_entry(list[i]));
        }
        lemma_commands_in(front);
        assert(is_entry(list[list.len() - 1]));
        assert(front.push(list.last()) =~= list);
    } else {
        assert(commands_in(list) =~= list);
    }
}

/// The history survives its file: what is written of it gives the same history when it is
/// read.
pub proof fn law_history_survives_file(history: Seq<Seq<char>>)
    requires
        history.len() <= MAX_COMMAND_HISTORY,
        forall|i: int| 0 <= i < history.len() ==> is_entry(#[trigger] history[i]),
    ensures
        history_of(history_text(history)) == history,
{
    let contents = text::joined(history, "\n"@);
    lemma_commands_in(history);
    if history.len() == 0 {
        assert(text::lines_of(contents) =~= history);
    } else {
        lemma_joined_ended(history);
        lemma_lines_ended(history);
        assert(is_entry(history[0]));
        assert(ended(history).len() >= history[0].len() + 1);
        assert(contents.push('\n').len() == contents.len() + 1);
    }
}

/// No command follows itself.
pub open spec fn no_repeats(history: Seq<Seq<char>>) -> bool {
    forall|i: int| 0 <= i < history.len() - 1 ==> #[trigger] history[i] != history[i + 1]
}

/// The history ends with the command that was recorded last, never repeats a command, and
/// never grows over its limit.
pub proof fn law_recording(history: Seq<Seq<char>>, command: Seq<char>)
    ensures
        recorded(history, command).len() > 0,
        recorded(history, command).last() == command,
        recorded(history, command).len() <= MAX_COMMAND_HISTORY,
        no_repeats(history) ==> no_repeats(recorded(history, command)),
{
}

} // verus!
