//! What is read off workflow files and logs.
use vstd::prelude::*;
use vstd::string::*;
use vstd::utf8::*;

use crate::lit;
use crate::report::{self, TestOutcome};
use crate::text::{self, CharClass};
use crate::texts;

verus! {

/// Whether a word of a log looks like a point in time: ASCII, of at least twenty characters, with
/// hyphens behind the year and the month and a `Z` at its end.
pub open spec fn looks_like_time(word: Seq<char>) -> bool {
    &&& is_ascii_chars(word)
    &&& word.len() >= 20
    &&& word[4] == '-'
    &&& word[7] == '-'
    &&& word[word.len() - 1] == 'Z'
}

/// The time at the start of a log line is taken off together with the blank behind it; a line that
/// starts with anything else stays.
pub proof fn law_times_are_taken_off(word: Seq<char>, rest: Seq<char>)
    requires
        is_ascii_chars(word),
        forall|k: int| 0 <= k < word.len() ==> #[trigger] word[k] != ' ',
    ensures
        lit::unstamped(word + " "@ + rest) == (if looks_like_time(word) {
            rest
        } else {
            word + " "@ + rest
        }),
{
    reveal_strlit(" ");
    reveal_strlit("Z");
    let line = word + " "@ + rest;
    assert forall|k: int| 0 <= k < word.len() implies !text::occurs_at(line, " "@, k) by {
        assert(line[k] == word[k]);
        if text::occurs_at(line, " "@, k) {
            assert(line.subrange(k, k + 1)[0] == ' ');
        }
    }
    texts::law_cut_is_at_first(word, " "@, rest);
    is_ascii_chars_encode_utf8(word);
    let bytes = encode_utf8(word);
    if word.len() >= 20 {
        assert(bytes[4] == word[4] as u8);
        assert(bytes[7] == word[7] as u8);
        is_ascii_chars_nat_bound(word);
        let end = word.subrange(word.len() - 1, word.len() as int);
        assert(end[0] == word[word.len() - 1]);
        if word[word.len() - 1] == 'Z' {
            assert(end =~= "Z"@);
        }
    }
}

/// The lines of a log are those of its text, each without its time.
pub proof fn law_log_lines_are_unstamped(log: Seq<char>, k: int)
    ensures
        lit::log_lines(log).len() == text::lines_of(log).len(),
        0 <= k < text::lines_of(log).len() ==> lit::log_lines(log)[k] == lit::unstamped(
            text::lines_of(log)[k],
        ),
{
}

/// Whether a line heads the list of failed tests, or that of tests that passed unexpectedly.
pub open spec fn is_head(line: Seq<char>, failed: bool) -> bool {
    text::begins_with(
        text::trimmed(line),
        if failed {
            "Failed Tests ("@
        } else {
            "Unexpectedly Passed Tests ("@
        },
    )
}

/// Whether a line ends a list of tests without heading one.
pub open spec fn is_break(line: Seq<char>) -> bool {
    let t = text::trimmed(line);
    ||| text::begins_with(t, "**"@)
    ||| text::begins_with(t, "##["@)
    ||| text::begins_with(t, "FAIL:"@)
    ||| text::begins_with(t, "XPASS:"@)
}

/// Whether a line stands in a list that another one heads.
pub open spec fn is_in_list(lines: Seq<Seq<char>>, head: int, k: int, failed: bool) -> bool {
    &&& 0 <= head < k < lines.len()
    &&& is_head(lines[head], failed)
    &&& forall|m: int|
        head < m <= k ==> !is_head(#[trigger] lines[m], true) && !is_head(lines[m], false)
            && !is_break(lines[m])
}

/// What stands behind the first pair of colons of a line, without the progress behind it.
pub open spec fn is_named(line: Seq<char>, name: Seq<char>) -> bool {
    text::cut_first(line, "::"@) matches Some((_, test)) && lit::without_progress(test) == name
}

proof fn lemma_kinds(line: Seq<char>)
    ensures
        lit::kind_of(text::trimmed(line)) == lit::LineKind::FailedHead <==> is_head(line, true),
        lit::kind_of(text::trimmed(line)) == lit::LineKind::PassedHead <==> is_head(line, false),
        lit::kind_of(text::trimmed(line)) == lit::LineKind::Other <==> !is_head(line, true)
            && !is_head(line, false) && !is_break(line),
{
    reveal_strlit("Failed Tests (");
    reveal_strlit("Unexpectedly Passed Tests (");
    let t = text::trimmed(line);
    if is_head(line, true) && is_head(line, false) {
        assert(t.subrange(0, 14)[0] == 'F');
        assert(t.subrange(0, 27)[0] == 'U');
    }
}

proof fn lemma_open_list(lines: Seq<Seq<char>>, failed: bool)
    ensures
        lit::open_list(lines) == Some(failed) <==> exists|head: int|
            #[trigger] heads_rest(lines, head, failed),
    decreases lines.len(),
{
    if lines.len() > 0 {
        let front = lines.drop_last();
        let at = lines.len() - 1;
        lemma_open_list(front, failed);
        lemma_kinds(lines.last());
        if lit::open_list(lines) == Some(failed) {
            if is_head(lines.last(), failed) {
                assert(heads_rest(lines, at, failed));
            } else {
                let head = choose|head: int| #[trigger] heads_rest(front, head, failed);
                assert(heads_rest(lines, head, failed)) by {
                    assert forall|m: int| head < m < lines.len() implies !is_head(
                        #[trigger] lines[m],
                        true,
                    ) && !is_head(lines[m], false) && !is_break(lines[m]) by {
                        if m < at {
                            assert(front[m] == lines[m]);
                        }
                    }
                    assert(front[head] == lines[head]);
                }
            }
        }
        if exists|head: int| #[trigger] heads_rest(lines, head, failed) {
            let head = choose|head: int| #[trigger] heads_rest(lines, head, failed);
            if head < at {
                assert(heads_rest(front, head, failed)) by {
                    assert(front[head] == lines[head]);
                    assert forall|m: int| head < m < front.len() implies !is_head(
                        #[trigger] front[m],
                        true,
                    ) && !is_head(front[m], false) && !is_break(front[m]) by {
                        assert(front[m] == lines[m]);
                    }
                }
                assert(!is_head(lines[at], true));
            }
        }
    }
}

/// Whether a line heads a list that no line behind it ends.
pub open spec fn heads_rest(lines: Seq<Seq<char>>, head: int, failed: bool) -> bool {
    &&& 0 <= head < lines.len()
    &&& is_head(lines[head], failed)
    &&& forall|m: int|
        head < m < lines.len() ==> !is_head(#[trigger] lines[m], true) && !is_head(lines[m], false)
            && !is_break(lines[m])
}

/// Whether a list that a line stands in names a test there.
pub open spec fn lists_test(
    lines: Seq<Seq<char>>,
    head: int,
    k: int,
    failed: bool,
    name: Seq<char>,
) -> bool {
    is_in_list(lines, head, k, failed) && is_named(text::trimmed(lines[k]), name)
}

proof fn lemma_listed(lines: Seq<Seq<char>>, failed: bool, name: Seq<char>)
    ensures
        lit::listed(lines, failed).contains(name) <==> exists|head: int, k: int|
            #[trigger] lists_test(lines, head, k, failed, name),
    decreases lines.len(),
{
    if lines.len() > 0 {
        let front = lines.drop_last();
        let at = lines.len() - 1;
        let before = lit::listed(front, failed);
        let all = lit::listed(lines, failed);
        lemma_listed(front, failed, name);
        lemma_open_list(front, failed);
        lemma_kinds(lines.last());
        if all.contains(name) {
            let n = choose|n: int| 0 <= n < all.len() && all[n] == name;
            if n < before.len() {
                assert(before[n] == name);
                let (head, k) = choose|head: int, k: int|
                    #[trigger] lists_test(front, head, k, failed, name);
                lemma_list_of_front(lines, head, k, failed, name);
            } else {
                let head = choose|head: int| #[trigger] heads_rest(front, head, failed);
                assert(is_in_list(lines, head, at, failed)) by {
                    assert(front[head] == lines[head]);
                    assert forall|m: int| head < m <= at implies !is_head(
                        #[trigger] lines[m],
                        true,
                    ) && !is_head(lines[m], false) && !is_break(lines[m]) by {
                        if m < at {
                            assert(front[m] == lines[m]);
                        }
                    }
                }
                assert(lists_test(lines, head, at, failed, name));
            }
        }
        if exists|head: int, k: int| #[trigger] lists_test(lines, head, k, failed, name) {
            let (head, k) = choose|head: int, k: int|
                #[trigger] lists_test(lines, head, k, failed, name);
            if k < at {
                lemma_list_of_front(lines, head, k, failed, name);
                assert(before.contains(name));
                let n = choose|n: int| 0 <= n < before.len() && before[n] == name;
                assert(all[n] == name);
            } else {
                assert(heads_rest(front, head, failed)) by {
                    assert(front[head] == lines[head]);
                    assert forall|m: int| head < m < front.len() implies !is_head(
                        #[trigger] front[m],
                        true,
                    ) && !is_head(front[m], false) && !is_break(front[m]) by {
                        assert(front[m] == lines[m]);
                    }
                }
                assert(!is_break(lines[at]));
                assert(lit::listed_name(lines.last()) == Some(name));
                assert(all == before.push(name));
                assert(all[before.len() as int] == name);
            }
        }
    }
}

proof fn lemma_list_of_front(
    lines: Seq<Seq<char>>,
    head: int,
    k: int,
    failed: bool,
    name: Seq<char>,
)
    requires
        lines.len() > 0,
        k < lines.len() - 1,
    ensures
        lists_test(lines, head, k, failed, name) == lists_test(
            lines.drop_last(),
            head,
            k,
            failed,
            name,
        ),
{
    let front = lines.drop_last();
    if 0 <= head < k {
        assert(front[head] == lines[head]);
        assert(front[k] == lines[k]);
        if is_in_list(front, head, k, failed) {
            assert forall|m: int| head < m <= k implies !is_head(#[trigger] lines[m], true)
                && !is_head(lines[m], false) && !is_break(lines[m]) by {
                assert(front[m] == lines[m]);
            }
        }
        if is_in_list(lines, head, k, failed) {
            assert forall|m: int| head < m <= k implies !is_head(#[trigger] front[m], true)
                && !is_head(front[m], false) && !is_break(front[m]) by {
                assert(front[m] == lines[m]);
            }
        }
    }
}

/// Whether a line gives the result of one test.
pub open spec fn gives_result(line: Seq<char>, failed: bool, name: Seq<char>) -> bool {
    let t = text::trimmed(line);
    let prefix = if failed {
        "FAIL:"@
    } else {
        "XPASS:"@
    };
    text::begins_with(t, prefix) && is_named(
        text::trimmed(t.skip(if failed { 5 } else { 6 })),
        name,
    )
}

proof fn lemma_reported(lines: Seq<Seq<char>>, failed: bool, name: Seq<char>)
    ensures
        lit::reported(
            lines,
            if failed {
                "FAIL:"@
            } else {
                "XPASS:"@
            },
        ).contains(name) <==> exists|k: int|
            0 <= k < lines.len() && gives_result(#[trigger] lines[k], failed, name),
    decreases lines.len(),
{
    reveal_strlit("FAIL:");
    reveal_strlit("XPASS:");
    let prefix = if failed {
        "FAIL:"@
    } else {
        "XPASS:"@
    };
    assert(prefix.len() == if failed { 5nat } else { 6nat });
    let all = lit::reported(lines, prefix);
    if lines.len() > 0 {
        let front = lines.drop_last();
        let at = lines.len() - 1;
        lemma_reported(front, failed, name);
        let before = lit::reported(front, prefix);
        if all.contains(name) {
            let n = choose|n: int| 0 <= n < all.len() && all[n] == name;
            if n < before.len() {
                assert(before[n] == name);
                let k = choose|k: int|
                    0 <= k < front.len() && gives_result(#[trigger] front[k], failed, name);
                assert(lines[k] == front[k]);
            } else {
                assert(gives_result(lines[at], failed, name));
            }
        }
        if exists|k: int| 0 <= k < lines.len() && gives_result(#[trigger] lines[k], failed, name) {
            let k = choose|k: int|
                0 <= k < lines.len() && gives_result(#[trigger] lines[k], failed, name);
            if k < at {
                assert(front[k] == lines[k]);
                assert(before.contains(name));
                let n = choose|n: int| 0 <= n < before.len() && before[n] == name;
                assert(all[n] == name);
            } else {
                assert(all == before.push(name));
                assert(all[before.len() as int] == name);
            }
        }
    }
}

/// A log names a test as failed, or as passed unexpectedly, exactly where it stands in a list of
/// such tests or a line gives that result of it. The names come in order and each once.
pub proof fn law_logs_name_tests(log: Seq<char>, failed: bool, name: Seq<char>)
    ensures
        lit::test_names(log, failed).contains(name) <==> (exists|head: int, k: int|
            #[trigger] lists_test(lit::log_lines(log), head, k, failed, name)) || (exists|k: int|
            0 <= k < lit::log_lines(log).len() && gives_result(
                #[trigger] lit::log_lines(log)[k],
                failed,
                name,
            )),
        text::increasing(lit::test_names(log, failed)),
{
    let lines = lit::log_lines(log);
    lemma_listed(lines, failed, name);
    lemma_reported(lines, failed, name);
    let all = lit::listed(lines, failed);
    let more = lit::reported(
        lines,
        if failed {
            "FAIL:"@
        } else {
            "XPASS:"@
        },
    );
    text::lemma_contains_sum(all, more, name);
    text::lemma_sorted_texts(all + more);
}

/// Whether a text has no blanks at its ends and is not empty.
pub open spec fn is_tight(t: Seq<char>) -> bool {
    t.len() > 0 && !text::is_space(t[0]) && !text::is_space(t[t.len() - 1])
}

proof fn lemma_tight(t: Seq<char>)
    requires
        is_tight(t),
    ensures
        text::trimmed(t) == t,
{
    assert(texts::is_core(t, CharClass::Space, 0, t.len() as int));
    texts::law_trimming_leaves_core(t, CharClass::Space, 0, t.len() as int);
    assert(t.subrange(0, t.len() as int) =~= t);
}

/// The progress behind the name of a test is taken off; a name without any stays.
pub proof fn law_progress_is_taken_off(name: Seq<char>, done: nat, total: nat)
    requires
        is_tight(name),
        forall|k: int| 0 <= k < name.len() ==> #[trigger] name[k] != '(',
    ensures
        lit::without_progress(name) == name,
        lit::without_progress(
            name + " ("@ + (text::decimal(done) + " of "@ + text::decimal(total) + ")"@),
        ) == name,
{
    reveal_strlit(" (");
    reveal_strlit(" of ");
    reveal_strlit(")");
    lemma_tight(name);
    texts::law_uncut_holds_none(name, " ("@);
    if exists|k: int| text::occurs_at(name, " ("@, k) {
        let k = choose|k: int| text::occurs_at(name, " ("@, k);
        assert(name.subrange(k, k + 2)[1] == '(');
        assert(name[k + 1] == '(');
    }
    let a = text::decimal(done);
    let b = text::decimal(total);
    text::lemma_decimal(done);
    text::lemma_decimal(total);
    let tail = a + " of "@ + b + ")"@;
    let all = name + " ("@ + tail;
    assert(all[0] == name[0]);
    assert(all[all.len() - 1] == ')');
    lemma_tight(all);
    assert forall|k: int| name.len() < k implies !text::occurs_at(all, " ("@, k) by {
        if text::occurs_at(all, " ("@, k) {
            assert(all.subrange(k, k + 2)[1] == '(');
            assert(all[k + 1] == '(');
            let p = k + 1 - name.len() - 2;
            assert(all[k + 1] == tail[p]);
            if p < a.len() {
                assert(tail[p] == a[p]);
                assert(text::is_digit(a[p]));
            } else if p >= a.len() + 4 && p < a.len() + 4 + b.len() {
                assert(tail[p] == b[p - a.len() - 4]);
                assert(text::is_digit(b[p - a.len() - 4]));
            }
        }
    }
    texts::law_cut_is_at_last(name, " ("@, tail);
    assert(tail.subrange(tail.len() - 1, tail.len() as int) =~= ")"@);
    let inside = tail.take(tail.len() - 1);
    assert(inside.subrange(a.len() as int, a.len() as int + 4) =~= " of "@);
    assert(text::occurs_at(inside, " of "@, a.len() as int));
}

/// A test that a log gives a result of is named by what stands behind the colons.
pub proof fn law_result_lines_name_tests(suite: Seq<char>, name: Seq<char>)
    requires
        is_tight(suite),
        is_tight(name),
        forall|k: int| 0 <= k < suite.len() ==> #[trigger] suite[k] != ':',
        forall|k: int| 0 <= k < name.len() ==> #[trigger] name[k] != '(',
    ensures
        lit::result_name("FAIL: "@ + (suite + " :: "@ + name), "FAIL:"@) == Some(name),
        lit::result_name("XPASS: "@ + (suite + " :: "@ + name), "XPASS:"@) == Some(name),
{
    reveal_strlit("FAIL: ");
    reveal_strlit("XPASS: ");
    reveal_strlit("FAIL:");
    reveal_strlit("XPASS:");
    reveal_strlit(" :: ");
    reveal_strlit("::");
    let body = suite + " :: "@ + name;
    assert(body[0] == suite[0]);
    assert(body[body.len() - 1] == name[name.len() - 1]);
    let failed = "FAIL: "@ + body;
    let passed = "XPASS: "@ + body;
    assert(failed.subrange(0, 5) =~= "FAIL:"@);
    assert(passed.subrange(0, 6) =~= "XPASS:"@);
    let spaced = seq![' '] + body;
    assert(failed.skip(5) =~= spaced);
    assert(passed.skip(6) =~= spaced);
    assert(spaced[1] == body[0]);
    assert(spaced[spaced.len() - 1] == body[body.len() - 1]);
    assert(spaced[0] == ' ');
    assert(texts::is_core(spaced, CharClass::Space, 1, spaced.len() as int));
    texts::law_trimming_leaves_core(spaced, CharClass::Space, 1, spaced.len() as int);
    assert(spaced.subrange(1, spaced.len() as int) =~= body);
    let front = suite.push(' ');
    let behind = seq![' '] + name;
    assert(body =~= front + "::"@ + behind);
    assert forall|k: int| 0 <= k < front.len() implies !text::occurs_at(
        front + "::"@ + behind,
        "::"@,
        k,
    ) by {
        if text::occurs_at(body, "::"@, k) {
            assert(body.subrange(k, k + 2)[0] == ':');
            assert(body[k] == ':');
            if k < suite.len() {
                assert(body[k] == suite[k]);
            }
        }
    }
    texts::law_cut_is_at_first(front, "::"@, behind);
    assert(behind[0] == ' ');
    assert(behind[1] == name[0]);
    assert(behind[behind.len() - 1] == name[name.len() - 1]);
    assert(texts::is_core(behind, CharClass::Space, 1, behind.len() as int));
    texts::law_trimming_leaves_core(behind, CharClass::Space, 1, behind.len() as int);
    assert(behind.subrange(1, behind.len() as int) =~= name);
    law_progress_is_taken_off(name, 0, 0);
    lemma_tight(name);
    assert(lit::without_progress(behind) == lit::without_progress(name));
}

proof fn lemma_last_marked(lines: Seq<Seq<char>>, a: Seq<char>)
    ensures
        match lit::last_marked(lines, a) {
            Some(i) => 0 <= i < lines.len() && text::begins_with(lines[i], a) && forall|m: int|
                i < m < lines.len() ==> !text::begins_with(#[trigger] lines[m], a),
            None => forall|m: int| 0 <= m < lines.len() ==> !text::begins_with(#[trigger] lines[m], a),
        },
    decreases lines.len(),
{
    if lines.len() > 0 && !text::begins_with(lines.last(), a) {
        let front = lines.drop_last();
        lemma_last_marked(front, a);
        match lit::last_marked(front, a) {
            Some(i) => {
                assert(front[i] == lines[i]);
                assert forall|m: int| i < m < lines.len() implies !text::begins_with(
                    #[trigger] lines[m],
                    a,
                ) by {
                    if m < front.len() {
                        assert(front[m] == lines[m]);
                    }
                }
            },
            None => {
                assert forall|m: int| 0 <= m < lines.len() implies !text::begins_with(
                    #[trigger] lines[m],
                    a,
                ) by {
                    if m < front.len() {
                        assert(front[m] == lines[m]);
                    }
                }
            },
        }
    }
}

proof fn lemma_first_marked(lines: Seq<Seq<char>>, a: Seq<char>, b: Seq<char>, from: int)
    requires
        0 <= from,
    ensures
        match lit::first_marked(lines, a, b, from) {
            Some(i) => from <= i < lines.len() && (text::begins_with(lines[i], a)
                || text::begins_with(lines[i], b)) && forall|m: int|
                from <= m < i ==> !text::begins_with(#[trigger] lines[m], a) && !text::begins_with(
                    lines[m],
                    b,
                ),
            None => forall|m: int|
                from <= m < lines.len() ==> !text::begins_with(#[trigger] lines[m], a)
                    && !text::begins_with(lines[m], b),
        },
    decreases lines.len() - from,
{
    if from < lines.len() && !lit::marked(lines[from], a, b) {
        lemma_first_marked(lines, a, b, from + 1);
    }
}

proof fn lemma_blank_end(lines: Seq<Seq<char>>, start: int, end: int)
    requires
        0 <= start <= end <= lines.len(),
    ensures
        ({
            let r = lit::without_blank_end(lines, start, end);
            &&& start <= r <= end
            &&& forall|m: int| r <= m < end ==> text::trimmed(#[trigger] lines[m]).len() == 0
            &&& r > start ==> text::trimmed(lines[r - 1]).len() > 0
        }),
    decreases end - start,
{
    if end > start && text::trimmed(lines[end - 1]).len() == 0 {
        lemma_blank_end(lines, start, end - 1);
    }
}

/// Whether a line is a command of the runner.
pub open spec fn is_command(line: Seq<char>) -> bool {
    text::begins_with(line, "##["@)
}

/// Whether a range of lines is a summary as far as its end goes: it holds no command of the runner,
/// ends in a line that is not blank, and nothing but blank lines follows it up to a command or the
/// end of the log.
pub open spec fn ends_summary(lines: Seq<Seq<char>>, start: int, end: int, stop: int) -> bool {
    &&& 0 <= start <= end <= stop <= lines.len()
    &&& forall|m: int| start <= m < stop ==> !is_command(#[trigger] lines[m])
    &&& stop == lines.len() || is_command(lines[stop])
    &&& forall|m: int| end <= m < stop ==> text::trimmed(#[trigger] lines[m]).len() == 0
    &&& end > start ==> text::trimmed(lines[end - 1]).len() > 0
}

/// The summary of a log is a range of its lines, from one that tells the testing time or heads a
/// list to the end of the log or the next command of the runner. There is none exactly where no
/// line is of these.
pub proof fn law_summary_is_part_of_log(log: Seq<char>)
    ensures
        ({
            let lines = lit::log_lines(log);
            match lit::lit_summary(log) {
                Some(summary) => exists|start: int, end: int, stop: int|
                    #[trigger] ends_summary(lines, start, end, stop) && start < lines.len()
                        && summary == text::joined(lines.subrange(start, end), "\n"@) && (
                    lit::heads_list(lines[start]) || text::begins_with(
                        lines[start],
                        "Testing Time:"@,
                    )),
                None => forall|m: int|
                    0 <= m < lines.len() ==> !lit::heads_list(#[trigger] lines[m])
                        && !text::begins_with(lines[m], "Testing Time:"@),
            }
        }),
{
    let lines = lit::log_lines(log);
    let failed = "Failed Tests ("@;
    let passed = "Unexpectedly Passed Tests ("@;
    lemma_last_marked(lines, "Testing Time:"@);
    lemma_last_marked(lines, failed);
    lemma_last_marked(lines, passed);
    if let Some(t) = lit::last_marked(lines, "Testing Time:"@) {
        lemma_first_marked(lines, failed, passed, t + 1);
    }
    if let Some(start) = lit::summary_start(lines) {
        assert(0 <= start < lines.len());
        lemma_first_marked(lines, "##["@, "##["@, start);
        let stop = match lit::first_marked(lines, "##["@, "##["@, start) {
            Some(i) => i,
            None => lines.len() as int,
        };
        lemma_blank_end(lines, start, stop);
        let end = lit::summary_end(lines, start);
        assert(ends_summary(lines, start, end, stop));
    }
}

/// A summary starts behind the last line that tells the testing time, at the first list there; at
/// that line where no list follows.
pub proof fn law_summary_starts_behind_time(lines: Seq<Seq<char>>, t: int, start: int)
    requires
        0 <= t < lines.len(),
        text::begins_with(lines[t], "Testing Time:"@),
        forall|m: int|
            t < m < lines.len() ==> !text::begins_with(#[trigger] lines[m], "Testing Time:"@),
    ensures
        t < start < lines.len() && lit::heads_list(lines[start]) && (forall|m: int|
            t < m < start ==> !lit::heads_list(#[trigger] lines[m])) ==> lit::summary_start(lines)
            == Some(start),
        (forall|m: int| t < m < lines.len() ==> !lit::heads_list(#[trigger] lines[m]))
            ==> lit::summary_start(lines) == Some(t),
{
    let failed = "Failed Tests ("@;
    let passed = "Unexpectedly Passed Tests ("@;
    lemma_last_marked(lines, "Testing Time:"@);
    assert(lit::last_marked(lines, "Testing Time:"@) == Some(t)) by {
        if let Some(i) = lit::last_marked(lines, "Testing Time:"@) {
            if i < t {
                assert(!text::begins_with(lines[t], "Testing Time:"@));
            }
        }
    }
    lemma_first_marked(lines, failed, passed, t + 1);
    match lit::first_marked(lines, failed, passed, t + 1) {
        Some(i) => {
            assert(lit::heads_list(lines[i]));
            if t < start < lines.len() && lit::heads_list(lines[start]) && start < i {
                assert(!text::begins_with(lines[start], failed));
            }
        },
        None => {
            if t < start < lines.len() && lit::heads_list(lines[start]) {
                assert(!text::begins_with(lines[start], failed));
            }
        },
    }
}

/// Whether a line ends a list of a summary.
pub open spec fn ends_list(line: Seq<char>) -> bool {
    text::trimmed(line).len() == 0 || text::begins_with(text::trimmed(line), "**"@)
}

/// Whether a line of a summary stands in a list of an outcome.
pub open spec fn is_in_summary_list(
    lines: Seq<Seq<char>>,
    head: int,
    k: int,
    outcome: TestOutcome,
) -> bool {
    &&& 0 <= head < k < lines.len()
    &&& is_head(lines[head], outcome == TestOutcome::Failed)
    &&& forall|m: int|
        head < m <= k ==> !is_head(#[trigger] lines[m], true) && !is_head(lines[m], false)
            && !ends_list(lines[m])
}

/// Whether a line of a summary names a test with an outcome.
pub open spec fn summary_names(
    lines: Seq<Seq<char>>,
    head: int,
    k: int,
    test: (TestOutcome, Seq<char>),
) -> bool {
    is_in_summary_list(lines, head, k, test.0) && (text::cut_first(
        text::trimmed(lines[k]),
        "::"@,
    ) matches Some((_, name)) && text::trimmed(name) == test.1)
}

/// Whether a line heads a list of a summary that no line behind it ends.
pub open spec fn heads_summary_rest(
    lines: Seq<Seq<char>>,
    head: int,
    outcome: TestOutcome,
) -> bool {
    &&& 0 <= head < lines.len()
    &&& is_head(lines[head], outcome == TestOutcome::Failed)
    &&& forall|m: int|
        head < m < lines.len() ==> !is_head(#[trigger] lines[m], true) && !is_head(lines[m], false)
            && !ends_list(lines[m])
}

proof fn lemma_open_outcome(lines: Seq<Seq<char>>, outcome: TestOutcome)
    ensures
        report::open_outcome(lines) == Some(outcome) <==> exists|head: int|
            #[trigger] heads_summary_rest(lines, head, outcome),
    decreases lines.len(),
{
    reveal_strlit("Failed Tests (");
    reveal_strlit("Unexpectedly Passed Tests (");
    reveal_strlit("**");
    if lines.len() > 0 {
        let front = lines.drop_last();
        let at = lines.len() - 1;
        lemma_open_outcome(front, outcome);
        lemma_kinds(lines.last());
        let failed = outcome == TestOutcome::Failed;
        if report::open_outcome(lines) == Some(outcome) {
            if is_head(lines.last(), failed) {
                assert(heads_summary_rest(lines, at, outcome));
            } else {
                let head = choose|head: int| #[trigger] heads_summary_rest(front, head, outcome);
                assert(heads_summary_rest(lines, head, outcome)) by {
                    assert(front[head] == lines[head]);
                    assert forall|m: int| head < m < lines.len() implies !is_head(
                        #[trigger] lines[m],
                        true,
                    ) && !is_head(lines[m], false) && !ends_list(lines[m]) by {
                        if m < at {
                            assert(front[m] == lines[m]);
                        }
                    }
                }
            }
        }
        if exists|head: int| #[trigger] heads_summary_rest(lines, head, outcome) {
            let head = choose|head: int| #[trigger] heads_summary_rest(lines, head, outcome);
            if head < at {
                assert(heads_summary_rest(front, head, outcome)) by {
                    assert(front[head] == lines[head]);
                    assert forall|m: int| head < m < front.len() implies !is_head(
                        #[trigger] front[m],
                        true,
                    ) && !is_head(front[m], false) && !ends_list(front[m]) by {
                        assert(front[m] == lines[m]);
                    }
                }
                assert(!is_head(lines[at], true));
            }
        }
    }
}

/// The tests that a summary names are those that stand in its lists, each with the outcome that
/// its list is of.
pub proof fn law_summaries_name_tests(lines: Seq<Seq<char>>, test: (TestOutcome, Seq<char>))
    ensures
        report::tests_in(lines).contains(test) <==> exists|head: int, k: int|
            #[trigger] summary_names(lines, head, k, test),
    decreases lines.len(),
{
    if lines.len() > 0 {
        let front = lines.drop_last();
        let at = lines.len() - 1;
        let before = report::tests_in(front);
        let all = report::tests_in(lines);
        law_summaries_name_tests(front, test);
        lemma_open_outcome(front, test.0);
        if all.contains(test) {
            let n = choose|n: int| 0 <= n < all.len() && all[n] == test;
            if n < before.len() {
                assert(before[n] == test);
                let (head, k) = choose|head: int, k: int|
                    #[trigger] summary_names(front, head, k, test);
                lemma_names_of_front(lines, head, k, test);
            } else {
                let head = choose|head: int| #[trigger] heads_summary_rest(front, head, test.0);
                assert(is_in_summary_list(lines, head, at, test.0)) by {
                    assert(front[head] == lines[head]);
                    assert forall|m: int| head < m <= at implies !is_head(
                        #[trigger] lines[m],
                        true,
                    ) && !is_head(lines[m], false) && !ends_list(lines[m]) by {
                        if m < at {
                            assert(front[m] == lines[m]);
                        }
                    }
                }
                assert(summary_names(lines, head, at, test));
            }
        }
        if exists|head: int, k: int| #[trigger] summary_names(lines, head, k, test) {
            let (head, k) = choose|head: int, k: int|
                #[trigger] summary_names(lines, head, k, test);
            if k < at {
                lemma_names_of_front(lines, head, k, test);
                assert(before.contains(test));
                let n = choose|n: int| 0 <= n < before.len() && before[n] == test;
                assert(all[n] == test);
            } else {
                assert(heads_summary_rest(front, head, test.0)) by {
                    assert(front[head] == lines[head]);
                    assert forall|m: int| head < m < front.len() implies !is_head(
                        #[trigger] front[m],
                        true,
                    ) && !is_head(front[m], false) && !ends_list(front[m]) by {
                        assert(front[m] == lines[m]);
                    }
                }
                assert(!ends_list(lines[at]));
                assert(all == before.push(test));
                assert(all[before.len() as int] == test);
            }
        }
    }
}

proof fn lemma_names_of_front(
    lines: Seq<Seq<char>>,
    head: int,
    k: int,
    test: (TestOutcome, Seq<char>),
)
    requires
        lines.len() > 0,
        k < lines.len() - 1,
    ensures
        summary_names(lines, head, k, test) == summary_names(lines.drop_last(), head, k, test),
{
    let front = lines.drop_last();
    if 0 <= head < k {
        assert(front[head] == lines[head]);
        assert(front[k] == lines[k]);
        if is_in_summary_list(front, head, k, test.0) {
            assert forall|m: int| head < m <= k implies !is_head(#[trigger] lines[m], true)
                && !is_head(lines[m], false) && !ends_list(lines[m]) by {
                assert(front[m] == lines[m]);
            }
        }
        if is_in_summary_list(lines, head, k, test.0) {
            assert forall|m: int| head < m <= k implies !is_head(#[trigger] front[m], true)
                && !is_head(front[m], false) && !ends_list(front[m]) by {
                assert(front[m] == lines[m]);
            }
        }
    }
}

/// Brackets behind the name of a test that tell of no progress belong to the name.
pub proof fn law_other_brackets_stay(name: Seq<char>, inside: Seq<char>)
    requires
        is_tight(name),
        forall|k: int| 0 <= k < name.len() ==> #[trigger] name[k] != '(',
        forall|k: int| 0 <= k < inside.len() ==> #[trigger] inside[k] != '(' && inside[k] != ' ',
    ensures
        lit::without_progress(name + " ("@ + (inside + ")"@)) == name + " ("@ + (inside + ")"@),
{
    reveal_strlit(" (");
    reveal_strlit(" of ");
    reveal_strlit(")");
    let tail = inside + ")"@;
    let all = name + " ("@ + tail;
    assert(all[0] == name[0]);
    assert(all[all.len() - 1] == ')');
    lemma_tight(all);
    assert forall|k: int| name.len() < k implies !text::occurs_at(all, " ("@, k) by {
        if text::occurs_at(all, " ("@, k) {
            assert(all.subrange(k, k + 2)[1] == '(');
            assert(all[k + 1] == '(');
            let p = k + 1 - name.len() - 2;
            assert(all[k + 1] == tail[p]);
            if p < inside.len() {
                assert(tail[p] == inside[p]);
            }
        }
    }
    texts::law_cut_is_at_last(name, " ("@, tail);
    assert(tail.take(tail.len() - 1) =~= inside);
    if text::holds_text(inside, " of "@) {
        let k = choose|k: int| text::occurs_at(inside, " of "@, k);
        assert(inside.subrange(k, k + 4)[0] == ' ');
        assert(inside[k] == ' ');
    }
}

} // verus!
