//! What workflow files and the logs of the `lit` test runner say.
use vstd::prelude::*;
use vstd::string::*;
use vstd::utf8::*;

use crate::text::{self, CharClass};

verus! {

broadcast use crate::text::lemma_views_push;

/// What stands behind a key of a mapping, which may be quoted, at the start of a text.
pub open spec fn behind_key(t: Seq<char>, key: Seq<char>) -> Option<Seq<char>> {
    let plain = key + ":"@;
    let double = "\""@ + key + "\":"@;
    let single = "'"@ + key + "':"@;
    if text::begins_with(t, plain) {
        Some(t.skip(plain.len() as int))
    } else if text::begins_with(t, double) {
        Some(t.skip(double.len() as int))
    } else if text::begins_with(t, single) {
        Some(t.skip(single.len() as int))
    } else {
        None
    }
}

/// Whether a line is indented.
pub open spec fn indented(line: Seq<char>) -> bool {
    line.len() > 0 && (line[0] == ' ' || line[0] == '\t')
}

/// How far a line is indented.
pub open spec fn indent(line: Seq<char>) -> int {
    line.len() - text::trim_start_of(line, CharClass::Space).len()
}

/// Whether a line says nothing: it is blank, or a comment.
pub open spec fn silent(line: Seq<char>) -> bool {
    text::trimmed(line).len() == 0 || text::begins_with(text::trimmed(line), "#"@)
}

/// Whether a line opens the block of triggers. A comment may follow.
pub open spec fn opens_triggers(line: Seq<char>) -> bool {
    match behind_key(line, "on"@) {
        Some(rest) => silent(rest) && (text::trimmed(rest).len() > 0 ==> indented(rest)),
        None => false,
    }
}

/// Whether a line is the key of a schedule, whatever follows it.
pub open spec fn names_schedule(line: Seq<char>) -> bool {
    match behind_key(text::trimmed(line), "schedule"@) {
        Some(rest) => rest.len() > 0 ==> indented(rest),
        None => false,
    }
}

/// The first line from `from` on that says something, or the number of lines.
pub open spec fn first_said(lines: Seq<Seq<char>>, from: int) -> int
    decreases lines.len() - from,
{
    if from < 0 || from >= lines.len() {
        lines.len() as int
    } else if !silent(lines[from]) {
        from
    } else {
        first_said(lines, from + 1)
    }
}

/// Whether the line at `at` is a schedule trigger of the block that the line at `on` opens:
/// that is the first block, all between the two lines belongs to it, and the line is indented
/// as the first key of the block is, so that it is a key of the block itself.
pub open spec fn schedule_at(lines: Seq<Seq<char>>, on: int, at: int) -> bool {
    &&& 0 <= on < at < lines.len()
    &&& opens_triggers(lines[on])
    &&& forall|k: int| 0 <= k < on ==> !opens_triggers(#[trigger] lines[k])
    &&& forall|k: int| on < k < at ==> silent(#[trigger] lines[k]) || indented(lines[k])
    &&& indented(lines[at])
    &&& indent(lines[at]) == indent(lines[first_said(lines, on + 1)])
    &&& names_schedule(lines[at])
}

/// Whether a workflow file has a schedule trigger in its top-level `on` block.
pub open spec fn scheduled(contents: Seq<char>) -> bool {
    exists|on: int, at: int| schedule_at(text::lines_of(contents), on, at)
}

fn rest_behind_key(t: &str, key: &str) -> (r: Option<String>)
    ensures
        text::view_opt(r) == behind_key(t@, key@),
{
    let plain = text::concat(key, ":");
    if let Some(rest) = text::strip_prefix(t, plain.as_str()) {
        return Some(rest);
    }
    let double = text::concat(text::concat("\"", key).as_str(), "\":");
    if let Some(rest) = text::strip_prefix(t, double.as_str()) {
        return Some(rest);
    }
    let single = text::concat(text::concat("'", key).as_str(), "':");
    text::strip_prefix(t, single.as_str())
}

fn is_indented(line: &str) -> (r: bool)
    ensures
        r == indented(line@),
{
    proof {
        reveal_strlit(" ");
        reveal_strlit("\t");
        if line@.len() > 0 {
            assert(line@.subrange(0, 1) =~= seq![line@[0]]);
            assert(" "@ =~= seq![' ']);
            assert("\t"@ =~= seq!['\t']);
            assert(seq![line@[0]][0] == line@[0]);
            assert(seq![' '][0] == ' ');
            assert(seq!['\t'][0] == '\t');
        }
    }
    text::starts_with(line, " ") || text::starts_with(line, "\t")
}

fn is_silent(line: &str) -> (r: bool)
    ensures
        r == silent(line@),
{
    let said = text::trim(line);
    said.as_str().is_empty() || text::starts_with(said.as_str(), "#")
}

fn indent_of(line: &str) -> (r: usize)
    ensures
        r == indent(line@),
{
    let unindented = text::trim_start_matches(line, CharClass::Space);
    proof {
        text::lemma_trim_start(line@, CharClass::Space);
    }
    text::chars_of(line).len() - text::chars_of(unindented.as_str()).len()
}

fn is_triggers(line: &str) -> (r: bool)
    ensures
        r == opens_triggers(line@),
{
    match rest_behind_key(line, "on") {
        Some(rest) => {
            let rest = rest.as_str();
            is_silent(rest) && (text::trim(rest).as_str().is_empty() || is_indented(rest))
        },
        None => false,
    }
}

fn is_schedule(line: &str) -> (r: bool)
    ensures
        r == names_schedule(line@),
{
    match rest_behind_key(text::trim(line).as_str(), "schedule") {
        Some(rest) => rest.as_str().is_empty() || is_indented(rest.as_str()),
        None => false,
    }
}

/// Tells whether a workflow file has a schedule trigger in its top-level `on` block.
pub fn has_schedule_trigger(contents: &str) -> (r: bool)
    ensures
        r == scheduled(contents@),
{
    let lines = text::lines(contents);
    let ghost all = text::lines_of(contents@);
    let mut on: usize = 0;
    while on < lines.len() && !is_triggers(lines[on].as_str())
        invariant
            on <= lines@.len(),
            all == text::views(lines@),
            forall|k: int| 0 <= k < on ==> !opens_triggers(#[trigger] all[k]),
        decreases lines@.len() - on,
    {
        assert(all[on as int] == lines@[on as int]@);
        on = on + 1;
    }
    if on == lines.len() {
        return false;
    }
    assert(all[on as int] == lines@[on as int]@);
    assert(opens_triggers(all[on as int]));
    let mut at: usize = on + 1;
    let mut of_block: Option<usize> = None;
    while at < lines.len()
        invariant
            on < at <= lines@.len(),
            all == text::views(lines@),
            all == text::lines_of(contents@),
            opens_triggers(all[on as int]),
            forall|k: int| 0 <= k < on ==> !opens_triggers(#[trigger] all[k]),
            forall|k: int| on < k < at ==> silent(#[trigger] all[k]) || indented(all[k]),
            forall|k: int| on < k < at ==> !schedule_at(all, on as int, k),
            match of_block {
                Some(n) => n == indent(all[first_said(all, on + 1)]),
                None => first_said(all, on + 1) == first_said(all, at as int),
            },
        decreases lines@.len() - at,
    {
        let line = lines[at].as_str();
        assert(all[at as int] == line@);
        if is_silent(line) {
            proof {
                lemma_schedule_is_said(line@);
            }
            at = at + 1;
            continue;
        }
        let inside = is_indented(line);
        if !inside {
            assert forall|o: int, k: int| !schedule_at(all, o, k) by {
                if schedule_at(all, o, k) {
                    if o < on {
                        assert(!opens_triggers(all[o]));
                    }
                    if o > on {
                        assert(!opens_triggers(all[on as int]));
                    }
                    if k > at {
                        assert(silent(all[at as int]) || indented(all[at as int]));
                    }
                }
            }
            return false;
        }
        let here: usize = indent_of(line);
        let first: usize = match of_block {
            Some(n) => n,
            None => here,
        };
        of_block = Some(first);
        if here == first && is_schedule(line) {
            assert(schedule_at(all, on as int, at as int));
            return true;
        }
        at = at + 1;
    }
    assert forall|o: int, k: int| !schedule_at(all, o, k) by {
        if schedule_at(all, o, k) {
            if o < on {
                assert(!opens_triggers(all[o]));
            }
            if o > on {
                assert(!opens_triggers(all[on as int]));
            }
        }
    }
    false
}

/// The key of a schedule says something.
proof fn lemma_schedule_is_said(line: Seq<char>)
    requires
        silent(line),
    ensures
        !names_schedule(line),
{
    let t = text::trimmed(line);
    let key = "schedule"@;
    reveal_strlit("schedule");
    reveal_strlit(":");
    reveal_strlit("#");
    reveal_strlit("\"");
    reveal_strlit("\":");
    reveal_strlit("'");
    reveal_strlit("':");
    if text::begins_with(t, "#"@) {
        assert(t.subrange(0, 1)[0] == '#');
        let plain = key + ":"@;
        let double = "\""@ + key + "\":"@;
        let single = "'"@ + key + "':"@;
        if text::begins_with(t, plain) {
            assert(t.subrange(0, plain.len() as int)[0] == 's');
        }
        if text::begins_with(t, double) {
            assert(t.subrange(0, double.len() as int)[0] == '"');
        }
        if text::begins_with(t, single) {
            assert(t.subrange(0, single.len() as int)[0] == '\'');
        }
    }
}

/// Whether the first word of a log line is the time it was written at.
pub open spec fn is_stamp(word: Seq<char>) -> bool {
    let bytes = encode_utf8(word);
    &&& bytes.len() >= 20
    &&& bytes[4] == 0x2d
    &&& bytes[7] == 0x2d
    &&& text::finishes_with(word, "Z"@)
}

/// A log line without the time it was written at.
pub open spec fn unstamped(line: Seq<char>) -> Seq<char> {
    let (word, rest) = match text::cut_first(line, " "@) {
        Some(parts) => parts,
        None => (line, Seq::empty()),
    };
    if is_stamp(word) {
        rest
    } else {
        line
    }
}

/// The lines of a log without the times they were written at.
pub open spec fn log_lines(log: Seq<char>) -> Seq<Seq<char>> {
    text::lines_of(log).map_values(|line: Seq<char>| unstamped(line))
}

/// Takes the time that a log line was written at off it.
pub fn strip_log_timestamp(line: &str) -> (r: String)
    ensures
        r@ == unstamped(line@),
{
    let (word, rest) = match text::split_once(line, " ") {
        Some(parts) => parts,
        None => (line.to_owned(), String::new()),
    };
    let bytes = text::bytes_of(word.as_str());
    if bytes.len() >= 20 && bytes[4] == 0x2d && bytes[7] == 0x2d && text::ends_with(
        word.as_str(),
        "Z",
    ) {
        rest
    } else {
        line.to_owned()
    }
}

fn stripped_lines(log: &str) -> (r: Vec<String>)
    ensures
        text::views(r@) == log_lines(log@),
{
    let lines = text::lines(log);
    let ghost all = log_lines(log@);
    let mut r: Vec<String> = Vec::new();
    let mut i: usize = 0;
    while i < lines.len()
        invariant
            i <= lines@.len(),
            text::views(lines@) == text::lines_of(log@),
            all == log_lines(log@),
            text::views(r@) =~= all.take(i as int),
        decreases lines@.len() - i,
    {
        assert(text::lines_of(log@)[i as int] == lines@[i as int]@);
        r.push(strip_log_timestamp(lines[i].as_str()));
        i = i + 1;
    }
    assert(all.take(i as int) =~= all);
    r
}

/// Whether a line begins with one of two texts.
pub open spec fn marked(line: Seq<char>, a: Seq<char>, b: Seq<char>) -> bool {
    text::begins_with(line, a) || text::begins_with(line, b)
}

/// The first line from `from` on that begins with one of two texts.
pub open spec fn first_marked(
    lines: Seq<Seq<char>>,
    a: Seq<char>,
    b: Seq<char>,
    from: int,
) -> Option<int>
    decreases lines.len() - from,
{
    if from < 0 || from >= lines.len() {
        None
    } else if marked(lines[from], a, b) {
        Some(from)
    } else {
        first_marked(lines, a, b, from + 1)
    }
}

/// The last line that begins with a text.
pub open spec fn last_marked(lines: Seq<Seq<char>>, a: Seq<char>) -> Option<int>
    decreases lines.len(),
{
    if lines.len() == 0 {
        None
    } else if text::begins_with(lines.last(), a) {
        Some(lines.len() - 1)
    } else {
        last_marked(lines.drop_last(), a)
    }
}

fn find_marked(lines: &Vec<String>, a: &str, b: &str, from: usize) -> (r: Option<usize>)
    ensures
        match r {
            Some(i) => {
                &&& first_marked(text::views(lines@), a@, b@, from as int) == Some(i as int)
                &&& from <= i < lines@.len()
            },
            None => first_marked(text::views(lines@), a@, b@, from as int) is None,
        },
{
    let ghost all = text::views(lines@);
    let mut i: usize = from;
    while i < lines.len()
        invariant
            from <= i,
            all == text::views(lines@),
            first_marked(all, a@, b@, from as int) == first_marked(all, a@, b@, i as int),
        decreases lines@.len() - i,
    {
        assert(all[i as int] == lines@[i as int]@);
        if text::starts_with(lines[i].as_str(), a) || text::starts_with(lines[i].as_str(), b) {
            return Some(i);
        }
        i = i + 1;
    }
    None
}

fn rfind_marked(lines: &Vec<String>, a: &str) -> (r: Option<usize>)
    ensures
        match r {
            Some(i) => last_marked(text::views(lines@), a@) == Some(i as int) && i < lines@.len(),
            None => last_marked(text::views(lines@), a@) is None,
        },
{
    let ghost all = text::views(lines@);
    let mut i: usize = lines.len();
    assert(all.take(i as int) =~= all);
    while i > 0
        invariant
            i <= lines@.len(),
            all == text::views(lines@),
            last_marked(all, a@) == last_marked(all.take(i as int), a@),
        decreases i,
    {
        assert(all.take(i as int).drop_last() =~= all.take(i - 1));
        assert(all.take(i as int).last() == lines@[i - 1]@);
        if text::starts_with(lines[i - 1].as_str(), a) {
            return Some(i - 1);
        }
        i = i - 1;
    }
    None
}

/// Where the summary of a log starts. It is the first list of tests behind the last line that
/// tells the testing time, or that line where no list follows it. In a log without such a line
/// it is the last list of tests that failed or the last list of those that unexpectedly passed,
/// whichever comes first, so that both stand in the summary.
pub open spec fn summary_start(lines: Seq<Seq<char>>) -> Option<int> {
    match last_marked(lines, "Testing Time:"@) {
        Some(t) => match first_marked(
            lines,
            "Failed Tests ("@,
            "Unexpectedly Passed Tests ("@,
            t + 1,
        ) {
            Some(i) => Some(i),
            None => Some(t),
        },
        None => match (
            last_marked(lines, "Failed Tests ("@),
            last_marked(lines, "Unexpectedly Passed Tests ("@),
        ) {
            (Some(i), Some(j)) => Some(if i <= j { i } else { j }),
            (Some(i), None) => Some(i),
            (None, j) => j,
        },
    }
}

/// The end of a range of lines without the blank lines at its end.
pub open spec fn without_blank_end(lines: Seq<Seq<char>>, start: int, end: int) -> int
    decreases end - start,
{
    if end > start && text::trimmed(lines[end - 1]).len() == 0 {
        without_blank_end(lines, start, end - 1)
    } else {
        end
    }
}

/// Where the summary of a log ends: before the next line that is a command of the runner, and
/// before the blank lines in front of it.
pub open spec fn summary_end(lines: Seq<Seq<char>>, start: int) -> int {
    let end = match first_marked(lines, "##["@, "##["@, start) {
        Some(i) => i,
        None => lines.len() as int,
    };
    without_blank_end(lines, start, end)
}

/// The summary of the tests that a log ends with.
pub open spec fn lit_summary(log: Seq<char>) -> Option<Seq<char>> {
    let lines = log_lines(log);
    match summary_start(lines) {
        Some(start) => Some(
            text::joined(lines.subrange(start, summary_end(lines, start)), "\n"@),
        ),
        None => None,
    }
}

/// Whether a line heads a list of tests that failed or that unexpectedly passed.
pub open spec fn heads_list(line: Seq<char>) -> bool {
    marked(line, "Failed Tests ("@, "Unexpectedly Passed Tests ("@)
}

/// A summary holds the lists of both kinds where both are there: every list behind the last
/// line that tells the testing time and, in a log without such a line, the last list of each
/// kind, as far as no command of the runner stands before it.
pub proof fn law_summary_holds_lists(lines: Seq<Seq<char>>, start: int, p: int)
    requires
        summary_start(lines) == Some(start),
        0 <= p < lines.len(),
        heads_list(lines[p]),
        match last_marked(lines, "Testing Time:"@) {
            Some(t) => t < p,
            None => Some(p) == last_marked(lines, "Failed Tests ("@) || Some(p) == last_marked(
                lines,
                "Unexpectedly Passed Tests ("@,
            ),
        },
        first_marked(lines, "##["@, "##["@, start) matches Some(i) ==> p < i,
    ensures
        start <= p < summary_end(lines, start),
{
    let a = "Failed Tests ("@;
    let b = "Unexpectedly Passed Tests ("@;
    if let Some(t) = last_marked(lines, "Testing Time:"@) {
        lemma_last_marked(lines, "Testing Time:"@);
        lemma_first_marked(lines, a, b, t + 1, p);
    }
    lemma_head_is_not_blank(lines[p]);
    let end = match first_marked(lines, "##["@, "##["@, start) {
        Some(i) => i,
        None => lines.len() as int,
    };
    lemma_not_blank_stays(lines, start, end, p);
}

proof fn lemma_last_marked(lines: Seq<Seq<char>>, a: Seq<char>)
    ensures
        last_marked(lines, a) matches Some(i) ==> 0 <= i < lines.len(),
    decreases lines.len(),
{
    if lines.len() > 0 {
        lemma_last_marked(lines.drop_last(), a);
    }
}

proof fn lemma_first_marked(lines: Seq<Seq<char>>, a: Seq<char>, b: Seq<char>, from: int, p: int)
    requires
        0 <= from <= p < lines.len(),
        marked(lines[p], a, b),
    ensures
        first_marked(lines, a, b, from) matches Some(i) && i <= p,
    decreases lines.len() - from,
{
    if !marked(lines[from], a, b) {
        lemma_first_marked(lines, a, b, from + 1, p);
    }
}

proof fn lemma_head_is_not_blank(line: Seq<char>)
    requires
        heads_list(line),
    ensures
        text::trimmed(line).len() > 0,
{
    reveal_strlit("Failed Tests (");
    reveal_strlit("Unexpectedly Passed Tests (");
    if text::begins_with(line, "Failed Tests ("@) {
        assert(line[0] == "Failed Tests ("@[0]);
    } else {
        assert(line[0] == "Unexpectedly Passed Tests ("@[0]);
    }
    text::lemma_trim_end_stays(line, CharClass::Space);
}

proof fn lemma_not_blank_stays(lines: Seq<Seq<char>>, start: int, end: int, p: int)
    requires
        start <= p < end,
        text::trimmed(lines[p]).len() > 0,
    ensures
        p < without_blank_end(lines, start, end),
    decreases end - start,
{
    if text::trimmed(lines[end - 1]).len() == 0 {
        lemma_not_blank_stays(lines, start, end - 1, p);
    }
}

/// Reads the summary of the tests that a log ends with.
pub fn extract_lit_summary(log: &str) -> (r: Option<String>)
    ensures
        text::view_opt(r) == lit_summary(log@),
{
    let lines = stripped_lines(log);
    let ghost all = log_lines(log@);
    assert(lines@.len() == lines.len());
    let start: usize = match rfind_marked(&lines, "Testing Time:") {
        Some(testing_time) => match find_marked(
            &lines,
            "Failed Tests (",
            "Unexpectedly Passed Tests (",
            testing_time + 1,
        ) {
            Some(i) => i,
            None => testing_time,
        },
        None => {
            let failed = rfind_marked(&lines, "Failed Tests (");
            let unexpected = rfind_marked(&lines, "Unexpectedly Passed Tests (");
            match (failed, unexpected) {
                (Some(i), Some(j)) => if i <= j {
                    i
                } else {
                    j
                },
                (Some(i), None) => i,
                (None, Some(j)) => j,
                (None, None) => {
                    return None;
                },
            }
        },
    };
    assert(summary_start(all) == Some(start as int));
    let mut end: usize = match find_marked(&lines, "##[", "##[", start) {
        Some(i) => i,
        None => lines.len(),
    };
    while end > start && text::trim(lines[end - 1].as_str()).as_str().is_empty()
        invariant
            start <= end <= lines@.len(),
            all == text::views(lines@),
            summary_end(all, start as int) == without_blank_end(all, start as int, end as int),
        decreases end,
    {
        assert(all[end - 1] == lines@[end - 1]@);
        end = end - 1;
    }
    if end > start {
        assert(all[end - 1] == lines@[end - 1]@);
    }
    let mut kept: Vec<String> = Vec::new();
    let mut i: usize = start;
    while i < end
        invariant
            start <= i <= end <= lines@.len(),
            all == text::views(lines@),
            text::views(kept@) =~= all.subrange(start as int, i as int),
        decreases end - i,
    {
        assert(all[i as int] == lines@[i as int]@);
        kept.push(lines[i].clone());
        i = i + 1;
    }
    Some(text::join(&kept, "\n"))
}

/// The name of a test without the progress that may follow it, as in `name (3 of 10)`.
pub open spec fn without_progress(test: Seq<char>) -> Seq<char> {
    let name = text::trimmed(test);
    match text::cut_last(name, " ("@) {
        Some((front, tail)) => if text::finishes_with(tail, ")"@) && text::holds_text(
            tail.take(tail.len() - 1),
            " of "@,
        ) {
            text::trimmed(front)
        } else {
            text::trimmed(name)
        },
        None => text::trimmed(name),
    }
}

/// Takes the progress that may follow the name of a test off it.
pub fn strip_lit_test_suffix(test: &str) -> (r: String)
    ensures
        r@ == without_progress(test@),
{
    let name = text::trim(test);
    if let Some((front, tail)) = text::rsplit_once(name.as_str(), " (") {
        if text::ends_with(tail.as_str(), ")") {
            proof {
                reveal_strlit(")");
            }
            let tail = text::chars_of(tail.as_str());
            let inside = text::string_range(&tail, 0, tail.len() - 1);
            assert(inside@ =~= tail@.take(tail@.len() - 1));
            if text::contains(inside.as_str(), " of ") {
                return text::trim(front.as_str());
            }
        }
    }
    text::trim(name.as_str())
}

/// The name of the test that a line with the result of one test gives.
pub open spec fn result_name(line: Seq<char>, prefix: Seq<char>) -> Option<Seq<char>> {
    if text::begins_with(line, prefix) {
        match text::cut_first(text::trimmed(line.skip(prefix.len() as int)), "::"@) {
            Some((_, test)) => Some(without_progress(test)),
            None => None,
        }
    } else {
        None
    }
}

/// Reads the name of the test off a line with the result of one test.
pub fn detailed_lit_test_name(line: &str, prefix: &str) -> (r: Option<String>)
    ensures
        text::view_opt(r) == result_name(line@, prefix@),
{
    match text::strip_prefix(line, prefix) {
        Some(rest) => match text::split_once(text::trim(rest.as_str()).as_str(), "::") {
            Some((_, test)) => Some(strip_lit_test_suffix(test.as_str())),
            None => None,
        },
        None => None,
    }
}

/// What a line of a log is.
#[derive(Clone, Copy, PartialEq, Eq, Structural)]
pub enum LineKind {
    /// The head of the list of failed tests.
    FailedHead,
    /// The head of the list of tests that passed unexpectedly.
    PassedHead,
    /// A line that ends a list.
    Break,
    /// Any other line.
    Other,
}

/// What a line is, without the blanks around it.
pub open spec fn kind_of(line: Seq<char>) -> LineKind {
    if text::begins_with(line, "Failed Tests ("@) {
        LineKind::FailedHead
    } else if text::begins_with(line, "Unexpectedly Passed Tests ("@) {
        LineKind::PassedHead
    } else if marked(line, "**"@, "##["@) || marked(line, "FAIL:"@, "XPASS:"@) {
        LineKind::Break
    } else {
        LineKind::Other
    }
}

fn line_kind(line: &str) -> (r: LineKind)
    ensures
        r == kind_of(line@),
{
    if text::starts_with(line, "Failed Tests (") {
        LineKind::FailedHead
    } else if text::starts_with(line, "Unexpectedly Passed Tests (") {
        LineKind::PassedHead
    } else if text::starts_with(line, "**") || text::starts_with(line, "##[") || text::starts_with(
        line,
        "FAIL:",
    ) || text::starts_with(line, "XPASS:") {
        LineKind::Break
    } else {
        LineKind::Other
    }
}

/// The list that is open behind some lines: that of the failed tests, that of the tests that
/// passed unexpectedly, or none.
pub open spec fn open_list(lines: Seq<Seq<char>>) -> Option<bool>
    decreases lines.len(),
{
    if lines.len() == 0 {
        None
    } else {
        match kind_of(text::trimmed(lines.last())) {
            LineKind::FailedHead => Some(true),
            LineKind::PassedHead => Some(false),
            LineKind::Break => None,
            LineKind::Other => open_list(lines.drop_last()),
        }
    }
}

/// The names that a line adds to a list that is open.
pub open spec fn listed_name(line: Seq<char>) -> Option<Seq<char>> {
    match text::cut_first(text::trimmed(line), "::"@) {
        Some((_, test)) => Some(without_progress(test)),
        None => None,
    }
}

/// The names in the lists of failed tests, or in those of tests that passed unexpectedly.
pub open spec fn listed(lines: Seq<Seq<char>>, failed: bool) -> Seq<Seq<char>>
    decreases lines.len(),
{
    if lines.len() == 0 {
        Seq::empty()
    } else {
        let before = listed(lines.drop_last(), failed);
        let line = lines.last();
        if kind_of(text::trimmed(line)) == LineKind::Other && open_list(lines.drop_last()) == Some(
            failed,
        ) && listed_name(line) is Some {
            before.push(listed_name(line)->0)
        } else {
            before
        }
    }
}

/// The names in the lines that give the result of one test.
pub open spec fn reported(lines: Seq<Seq<char>>, prefix: Seq<char>) -> Seq<Seq<char>>
    decreases lines.len(),
{
    if lines.len() == 0 {
        Seq::empty()
    } else {
        let before = reported(lines.drop_last(), prefix);
        match result_name(text::trimmed(lines.last()), prefix) {
            Some(name) => before.push(name),
            None => before,
        }
    }
}

/// The tests that a log names as failed, or as passed unexpectedly: those of the lists and
/// those of the lines that give the result of one test, in order and each once.
pub open spec fn test_names(log: Seq<char>, failed: bool) -> Seq<Seq<char>> {
    let lines = log_lines(log);
    text::sorted_texts(
        listed(lines, failed) + reported(
            lines,
            if failed {
                "FAIL:"@
            } else {
                "XPASS:"@
            },
        ),
    )
}

fn push_listed(lines: &Vec<String>, failed: bool) -> (r: Vec<String>)
    ensures
        text::views(r@) == listed(text::views(lines@), failed),
{
    let ghost all = text::views(lines@);
    let mut r: Vec<String> = Vec::new();
    let mut section: Option<bool> = None;
    let mut i: usize = 0;
    assert(text::views(r@) =~= listed(all.take(0), failed));
    while i < lines.len()
        invariant
            i <= lines@.len(),
            all == text::views(lines@),
            section == open_list(all.take(i as int)),
            text::views(r@) == listed(all.take(i as int), failed),
        decreases lines@.len() - i,
    {
        assert(all.take(i + 1).drop_last() =~= all.take(i as int));
        assert(all.take(i + 1).last() == lines@[i as int]@);
        let line = text::trim(lines[i].as_str());
        let ghost before = r@;
        match line_kind(line.as_str()) {
            LineKind::FailedHead => {
                section = Some(true);
            },
            LineKind::PassedHead => {
                section = Some(false);
            },
            LineKind::Break => {
                section = None;
            },
            LineKind::Other => {
                if let Some(open) = section {
                    if open == failed {
                        if let Some((_, test)) = text::split_once(line.as_str(), "::") {
                            r.push(strip_lit_test_suffix(test.as_str()));
                            assert(text::views(r@) =~= text::views(before).push(
                                r@[before.len() as int]@,
                            ));
                        }
                    }
                }
            },
        }
        i = i + 1;
    }
    assert(all.take(i as int) =~= all);
    r
}

fn push_reported(lines: &Vec<String>, prefix: &str, names: &mut Vec<String>)
    ensures
        text::views(final(names)@) == text::views(old(names)@) + reported(
            text::views(lines@),
            prefix@,
        ),
{
    let ghost all = text::views(lines@);
    let ghost first = text::views(names@);
    let mut i: usize = 0;
    assert(text::views(names@) =~= first + reported(all.take(0), prefix@));
    while i < lines.len()
        invariant
            i <= lines@.len(),
            all == text::views(lines@),
            text::views(names@) == first + reported(all.take(i as int), prefix@),
        decreases lines@.len() - i,
    {
        assert(all.take(i + 1).drop_last() =~= all.take(i as int));
        assert(all.take(i + 1).last() == lines@[i as int]@);
        let line = text::trim(lines[i].as_str());
        let ghost before = names@;
        if let Some(test) = detailed_lit_test_name(line.as_str(), prefix) {
            names.push(test);
            assert(text::views(names@) =~= text::views(before).push(test@));
            assert(text::views(names@) =~= first + reported(all.take(i + 1), prefix@));
        }
        i = i + 1;
    }
    assert(all.take(i as int) =~= all);
}

/// Reads the names of the failed tests and of the tests that passed unexpectedly off a log.
pub fn extract_lit_test_names(log: &str) -> (r: (Vec<String>, Vec<String>))
    ensures
        text::views(r.0@) == test_names(log@, true),
        text::views(r.1@) == test_names(log@, false),
{
    let lines = stripped_lines(log);
    let mut failed = push_listed(&lines, true);
    let mut unexpectedly_passed = push_listed(&lines, false);
    push_reported(&lines, "FAIL:", &mut failed);
    push_reported(&lines, "XPASS:", &mut unexpectedly_passed);
    (text::sort_dedup(&failed), text::sort_dedup(&unexpectedly_passed))
}

} // verus!
