//! How replies and the names of repositories are understood.
use vstd::prelude::*;
use vstd::string::*;
use vstd::utf8::*;

use crate::cache::Timestamp;
use crate::repository::{self, ParseRepositoryError, RepositoryModel};
use crate::response::{self, ErrorModel, PageModel};
use crate::text::{self, CharClass};
use crate::texts;

verus! {

/// The line of a header field.
pub open spec fn header_line(field: (Seq<char>, Seq<char>)) -> Seq<char> {
    field.0 + ": "@ + field.1
}

/// The lines before the body of a reply.
pub open spec fn head_lines(code: nat, fields: Seq<(Seq<char>, Seq<char>)>) -> Seq<Seq<char>> {
    seq!["HTTP/2.0 "@ + text::decimal(code)] + fields.map_values(
        |field: (Seq<char>, Seq<char>)| header_line(field),
    )
}

/// A reply with a status code, header fields and a body.
pub open spec fn reply(
    code: nat,
    fields: Seq<(Seq<char>, Seq<char>)>,
    body: Seq<char>,
) -> Seq<char> {
    text::joined(head_lines(code, fields), "\r\n"@) + "\r\n\r\n"@ + body
}

/// Whether a header field has a name of small letters and hyphens, and a value on one line without
/// blanks at its ends.
pub open spec fn is_field(field: (Seq<char>, Seq<char>)) -> bool {
    &&& field.0.len() > 0
    &&& forall|k: int|
        0 <= k < field.0.len() ==> 'a' <= #[trigger] field.0[k] <= 'z' || field.0[k] == '-'
    &&& field.1.len() > 0
    &&& texts::is_line(field.1)
    &&& !text::is_space(field.1[0])
    &&& !text::is_space(field.1[field.1.len() - 1])
}

/// Whether all header fields of a list are such fields.
pub open spec fn are_fields(fields: Seq<(Seq<char>, Seq<char>)>) -> bool {
    forall|n: int| 0 <= n < fields.len() ==> is_field(#[trigger] fields[n])
}

proof fn lemma_header_line(field: (Seq<char>, Seq<char>))
    requires
        is_field(field),
    ensures
        ({
            let line = header_line(field);
            &&& texts::is_line(line)
            &&& line.len() > 0
            &&& response::fields_of(seq![line]) == seq![field]
            &&& (text::cut_first(line, ":"@) matches Some((name, value)) && text::lowercase(
                text::trimmed(name),
            ) == field.0 && text::trimmed(value) == field.1)
        }),
{
    reveal_strlit(": ");
    reveal_strlit(":");
    let (name, value) = field;
    let line = header_line(field);
    assert forall|k: int| 0 <= k < line.len() implies #[trigger] line[k] != '\n' && line[k]
        != '\r' by {
        if k < name.len() {
            assert(line[k] == name[k]);
        } else if k >= name.len() + 2 {
            assert(line[k] == value[k - name.len() - 2]);
        }
    }
    let behind = seq![' '] + value;
    assert(line =~= name + ":"@ + behind);
    assert forall|k: int| 0 <= k < name.len() implies !text::occurs_at(
        name + ":"@ + behind,
        ":"@,
        k,
    ) by {
        assert((name + ":"@ + behind)[k] == name[k]);
        if text::occurs_at(name + ":"@ + behind, ":"@, k) {
            assert((name + ":"@ + behind).subrange(k, k + 1)[0] == ':');
        }
    }
    texts::law_cut_is_at_first(name, ":"@, behind);
    assert(texts::is_core(name, CharClass::Space, 0, name.len() as int));
    texts::law_trimming_leaves_core(name, CharClass::Space, 0, name.len() as int);
    assert(name.subrange(0, name.len() as int) =~= name);
    assert(behind[0] == ' ');
    assert(behind[1] == value[0]);
    assert(behind[behind.len() - 1] == value[value.len() - 1]);
    assert(texts::is_core(behind, CharClass::Space, 1, behind.len() as int));
    texts::law_trimming_leaves_core(behind, CharClass::Space, 1, behind.len() as int);
    assert(behind.subrange(1, behind.len() as int) =~= value);
    assert(text::ascii(name));
    assert(text::lowercase(name) =~= name);
    assert(seq![line].drop_last() =~= Seq::<Seq<char>>::empty());
    assert(response::fields_of(Seq::<Seq<char>>::empty()) =~= Seq::empty());
    assert(response::fields_of(seq![line]) =~= seq![field]);
}

proof fn lemma_fields(fields: Seq<(Seq<char>, Seq<char>)>)
    requires
        are_fields(fields),
    ensures
        response::fields_of(
            fields.map_values(|field: (Seq<char>, Seq<char>)| header_line(field)),
        ) == fields,
    decreases fields.len(),
{
    let lines = fields.map_values(|field: (Seq<char>, Seq<char>)| header_line(field));
    if fields.len() > 0 {
        let front = fields.drop_last();
        lemma_fields(front);
        assert(lines.drop_last() =~= front.map_values(
            |field: (Seq<char>, Seq<char>)| header_line(field),
        ));
        assert(is_field(fields[fields.len() - 1]));
        lemma_header_line(fields.last());
        assert(front.push(fields.last()) =~= fields);
    } else {
        assert(response::fields_of(lines) =~= fields);
    }
}

proof fn lemma_line_ends(lines: Seq<Seq<char>>)
    requires
        lines.len() > 0,
        forall|n: int|
            0 <= n < lines.len() ==> texts::is_line(#[trigger] lines[n]) && lines[n].len() > 0,
    ensures
        ({
            let all = text::joined(lines, "\r\n"@);
            &&& all.len() > 0
            &&& forall|p: int|
                0 <= p < all.len() && #[trigger] all[p] == '\n' ==> p + 1 < all.len() && all[p + 1]
                    != '\r'
        }),
    decreases lines.len(),
{
    reveal_strlit("\r\n");
    let all = text::joined(lines, "\r\n"@);
    let last = lines.last();
    assert(texts::is_line(lines[lines.len() - 1]));
    if lines.len() > 1 {
        let front = lines.drop_last();
        assert forall|n: int| 0 <= n < front.len() implies texts::is_line(#[trigger] front[n])
            && front[n].len() > 0 by {
            assert(front[n] == lines[n]);
        }
        lemma_line_ends(front);
        let before = text::joined(front, "\r\n"@);
        assert(all == before + "\r\n"@ + last);
        assert forall|p: int| 0 <= p < all.len() && #[trigger] all[p] == '\n' implies p + 1
            < all.len() && all[p + 1] != '\r' by {
            if p < before.len() {
                assert(before[p] == '\n');
                assert(all[p + 1] == before[p + 1]);
            } else if p == before.len() + 1 {
                assert(all[p + 1] == last[0]);
            } else if p > before.len() + 1 {
                assert(all[p] == last[p - before.len() - 2]);
            }
        }
    } else {
        assert(all == lines[0]);
        assert(texts::is_line(lines[0]));
    }
}

proof fn lemma_reply(code: nat, fields: Seq<(Seq<char>, Seq<char>)>, body: Seq<char>)
    requires
        are_fields(fields),
        code <= u16::MAX,
    ensures
        ({
            let (head, rest) = response::head_and_body(reply(code, fields, body));
            &&& rest == body
            &&& response::status_code(head) == Some(code)
            &&& response::head_fields(head) == fields
        }),
{
    reveal_strlit("\r\n\r\n");
    reveal_strlit("HTTP/2.0 ");
    reveal_strlit("HTTP/2.0");
    reveal_strlit(" ");
    let lines = head_lines(code, fields);
    let head = text::joined(lines, "\r\n"@);
    text::lemma_decimal(code);
    let digits = text::decimal(code);
    assert(texts::is_line("HTTP/2.0 "@ + digits)) by {
        assert forall|k: int| 0 <= k < ("HTTP/2.0 "@ + digits).len() implies #[trigger] (
        "HTTP/2.0 "@ + digits)[k] != '\n' && ("HTTP/2.0 "@ + digits)[k] != '\r' by {
            if k >= 9 {
                assert(("HTTP/2.0 "@ + digits)[k] == digits[k - 9]);
                assert(text::is_digit(digits[k - 9]));
            }
        }
    }
    assert forall|n: int| 0 <= n < lines.len() implies texts::is_line(#[trigger] lines[n])
        && lines[n].len() > 0 by {
        if n > 0 {
            assert(is_field(fields[n - 1]));
            lemma_header_line(fields[n - 1]);
            assert(lines[n] == header_line(fields[n - 1]));
        }
    }
    lemma_line_ends(lines);
    let s = reply(code, fields, body);
    assert forall|k: int| 0 <= k < head.len() implies !text::occurs_at(
        head + "\r\n\r\n"@ + body,
        "\r\n\r\n"@,
        k,
    ) by {
        if text::occurs_at(s, "\r\n\r\n"@, k) {
            let part = s.subrange(k, k + 4);
            assert(part[1] == '\n' && part[2] == '\r');
            assert(s[k + 1] == '\n' && s[k + 2] == '\r');
            if k + 1 < head.len() {
                assert(head[k + 1] == '\n');
                assert(s[k + 2] == head[k + 2]);
            } else {
                assert(s[k + 1] == '\r');
            }
        }
    }
    texts::law_cut_is_at_first(head, "\r\n\r\n"@, body);
    texts::law_lines_are_split(lines);
    assert(text::lines_of(head) == lines);
    let words = seq!["HTTP/2.0"@, digits];
    assert(words.drop_last() =~= seq!["HTTP/2.0"@]);
    assert(text::joined(seq!["HTTP/2.0"@], " "@) == "HTTP/2.0"@);
    assert(text::joined(words, " "@) =~= "HTTP/2.0 "@ + digits);
    assert forall|n: int| 0 <= n < words.len() implies texts::is_one_word(#[trigger] words[n]) by {
        if n == 1 {
            assert forall|k: int| 0 <= k < digits.len() implies !text::is_space(
                #[trigger] digits[k],
            ) by {
                assert(text::is_digit(digits[k]));
            }
        }
    }
    texts::law_words_are_split(words);
    assert(lines[0] == "HTTP/2.0 "@ + digits);
    texts::law_written_numbers_are_read(code, u16::MAX as nat);
    assert(lines.skip(1) =~= fields.map_values(
        |field: (Seq<char>, Seq<char>)| header_line(field),
    ));
    lemma_fields(fields);
}

/// Whether a header field has a value: of several fields of one name the last counts.
pub open spec fn has_header(
    fields: Seq<(Seq<char>, Seq<char>)>,
    name: Seq<char>,
    value: Seq<char>,
) -> bool {
    exists|n: int|
        0 <= n < fields.len() && #[trigger] fields[n] == (name, value) && forall|m: int|
            n < m < fields.len() ==> (#[trigger] fields[m]).0 != name
}

/// The value of a header field is that of the last field of its name.
pub proof fn law_last_field_counts(
    fields: Seq<(Seq<char>, Seq<char>)>,
    name: Seq<char>,
    value: Seq<char>,
)
    ensures
        response::lookup(fields, name) == Some(value) <==> has_header(fields, name, value),
        response::lookup(fields, name) is None <==> forall|n: int|
            0 <= n < fields.len() ==> (#[trigger] fields[n]).0 != name,
    decreases fields.len(),
{
    if fields.len() > 0 {
        let front = fields.drop_last();
        let at = fields.len() - 1;
        law_last_field_counts(front, name, value);
        if fields.last().0 == name {
            assert(fields[at].0 == name);
            if fields.last().1 == value {
                assert(fields[at] == (name, value));
            }
        } else {
            if has_header(front, name, value) {
                let n = choose|n: int|
                    0 <= n < front.len() && #[trigger] front[n] == (name, value) && forall|m: int|
                        n < m < front.len() ==> (#[trigger] front[m]).0 != name;
                assert(fields[n] == (name, value));
                assert forall|m: int| n < m < fields.len() implies (#[trigger] fields[m]).0
                    != name by {
                    if m < at {
                        assert(front[m] == fields[m]);
                    }
                }
            }
            if has_header(fields, name, value) {
                let n = choose|n: int|
                    0 <= n < fields.len() && #[trigger] fields[n] == (name, value) && forall|m: int|
                        n < m < fields.len() ==> (#[trigger] fields[m]).0 != name;
                assert(n < at);
                assert(front[n] == (name, value));
                assert forall|m: int| n < m < front.len() implies (#[trigger] front[m]).0
                    != name by {
                    assert(front[m] == fields[m]);
                }
            }
            if forall|n: int| 0 <= n < front.len() ==> (#[trigger] front[n]).0 != name {
                assert forall|n: int| 0 <= n < fields.len() implies (#[trigger] fields[n]).0
                    != name by {
                    if n < at {
                        assert(front[n] == fields[n]);
                    }
                }
            }
            if forall|n: int| 0 <= n < fields.len() ==> (#[trigger] fields[n]).0 != name {
                assert forall|n: int| 0 <= n < front.len() implies (#[trigger] front[n]).0
                    != name by {
                    assert(front[n] == fields[n]);
                }
            }
        }
    }
}

/// What is said of a request that failed: what was printed, or the exit status.
pub open spec fn says_failure(error: ErrorModel, stderr: Seq<char>, status: Seq<char>) -> bool {
    error matches ErrorModel::Request(words) && words == (if text::trimmed(stderr).len() == 0 {
        "gh exited with status "@ + status
    } else {
        text::trimmed(stderr)
    })
}

/// The status code of a reply decides: one from 200 to 299 brings a new page with its validator,
/// 304 tells that the page has not changed, and any other is a failure. Only 403 and 429 can tell
/// of a rate limit.
pub proof fn law_reply_code_decides(
    code: nat,
    fields: Seq<(Seq<char>, Seq<char>)>,
    body: Seq<char>,
    stderr: Seq<char>,
    status: Seq<char>,
    now: Timestamp,
)
    requires
        are_fields(fields),
        code <= u16::MAX,
    ensures
        ({
            let outcome = response::page_outcome(reply(code, fields, body), stderr, status, now);
            &&& outcome == Ok::<PageModel, ErrorModel>(PageModel::NotModified) <==> code == 304
            &&& outcome is Ok <==> code == 304 || 200 <= code <= 299
            &&& (outcome matches Ok(PageModel::Modified { body: bytes, etag }) ==> bytes
                == encode_utf8(body) && match etag {
                Some(value) => has_header(fields, "etag"@, value),
                None => forall|n: int| 0 <= n < fields.len() ==> (#[trigger] fields[n]).0 != "etag"@,
            })
            &&& (outcome matches Err(error) ==> (code != 403 && code != 429 ==> says_failure(
                error,
                stderr,
                status,
            )))
            &&& (outcome matches Err(error) ==> says_failure(error, stderr, status)
                || error is RateLimited)
        }),
{
    lemma_reply(code, fields, body);
    let value = response::lookup(fields, "etag"@);
    law_last_field_counts(fields, "etag"@, value->0);
}

/// A refused request tells of a rate limit exactly where no request is left, or the message speaks
/// of one, in capitals or not.
pub proof fn law_rate_limit_is_told(
    code: nat,
    fields: Seq<(Seq<char>, Seq<char>)>,
    body: Seq<char>,
    stderr: Seq<char>,
    status: Seq<char>,
    now: Timestamp,
)
    requires
        are_fields(fields),
        code == 403 || code == 429,
    ensures
        (response::page_outcome(reply(code, fields, body), stderr, status, now) matches Err(error)
            && error is RateLimited) <==> has_header(fields, "x-ratelimit-remaining"@, "0"@) || (
        exists|k: int| text::occurs_at(text::lowercase(stderr), "rate limit"@, k)),
{
    lemma_reply(code, fields, body);
    law_last_field_counts(fields, "x-ratelimit-remaining"@, "0"@);
}

proof fn lemma_signed(n: nat)
    requires
        n <= i64::MAX,
    ensures
        text::read_signed(text::trimmed(text::decimal(n)), i64::MAX as nat) == Some(n as int),
{
    let digits = text::decimal(n);
    text::lemma_decimal(n);
    assert forall|k: int| 0 <= k < digits.len() implies !text::is_space(#[trigger] digits[k]) by {
        assert(text::is_digit(digits[k]));
    }
    assert(texts::is_core(digits, CharClass::Space, 0, digits.len() as int));
    texts::law_trimming_leaves_core(digits, CharClass::Space, 0, digits.len() as int);
    assert(digits.subrange(0, digits.len() as int) =~= digits);
    texts::law_written_numbers_are_read(n, i64::MAX as nat);
}

/// A rate limit is told with the requests that it is for and the seconds after which to try again,
/// where the reply says so.
pub proof fn law_rate_limit_names_retry(
    fields: Seq<(Seq<char>, Seq<char>)>,
    resource: Seq<char>,
    seconds: nat,
    stderr: Seq<char>,
    status: Seq<char>,
    now: Timestamp,
)
    requires
        has_header(fields, "x-ratelimit-remaining"@, "0"@),
        has_header(fields, "x-ratelimit-resource"@, resource),
        has_header(fields, "retry-after"@, text::decimal(seconds)),
        seconds <= i64::MAX,
    ensures
        response::refusal(fields, stderr, status, now) == ErrorModel::RateLimited(
            " for "@ + resource + " requests"@ + ("; retry in "@ + text::decimal(seconds) + "s"@),
        ),
{
    law_last_field_counts(fields, "x-ratelimit-remaining"@, "0"@);
    law_last_field_counts(fields, "x-ratelimit-resource"@, resource);
    law_last_field_counts(fields, "retry-after"@, text::decimal(seconds));
    lemma_signed(seconds);
}

/// Without a number of seconds, a rate limit is told with the whole minutes until it ends.
pub proof fn law_rate_limit_names_reset(
    fields: Seq<(Seq<char>, Seq<char>)>,
    seconds: nat,
    minutes: nat,
    stderr: Seq<char>,
    status: Seq<char>,
    now: Timestamp,
)
    requires
        has_header(fields, "x-ratelimit-remaining"@, "0"@),
        forall|n: int| 0 <= n < fields.len() ==> (#[trigger] fields[n]).0 != "retry-after"@,
        forall|n: int| 0 <= n < fields.len() ==> (#[trigger] fields[n]).0 != "x-ratelimit-resource"@,
        has_header(fields, "x-ratelimit-reset"@, text::decimal(seconds)),
        seconds <= 253_402_300_799,
        now + minutes * 60_000_000_000 <= seconds * 1_000_000_000 < now + (minutes + 1)
            * 60_000_000_000,
    ensures
        response::refusal(fields, stderr, status, now) == ErrorModel::RateLimited(
            "; resets in "@ + text::decimal(minutes) + "m"@,
        ),
{
    law_last_field_counts(fields, "x-ratelimit-remaining"@, "0"@);
    law_last_field_counts(fields, "x-ratelimit-resource"@, Seq::empty());
    law_last_field_counts(fields, "retry-after"@, Seq::empty());
    law_last_field_counts(fields, "x-ratelimit-reset"@, text::decimal(seconds));
    lemma_signed(seconds);
    let words = "; resets in "@ + text::decimal(minutes) + "m"@;
    assert(Seq::<char>::empty() + words =~= words);
}

/// Whether a text names an owner or a repository: it is not empty and holds no slash.
pub open spec fn is_segment(t: Seq<char>) -> bool {
    t.len() > 0 && forall|k: int| 0 <= k < t.len() ==> #[trigger] t[k] != '/'
}

proof fn lemma_one_piece(t: Seq<char>)
    requires
        is_segment(t),
    ensures
        text::pieces(t, CharClass::Is('/')) == seq![t],
{
    text::lemma_class_from(t, CharClass::Is('/'), 0);
}

proof fn lemma_two_pieces(owner: Seq<char>, rest: Seq<char>)
    requires
        is_segment(owner),
    ensures
        text::pieces(owner + "/"@ + rest, CharClass::Is('/')) == seq![owner] + text::pieces(
            rest,
            CharClass::Is('/'),
        ),
{
    reveal_strlit("/");
    let s = owner + "/"@ + rest;
    let class = CharClass::Is('/');
    text::lemma_class_from(s, class, 0);
    let at = text::class_from(s, class, 0);
    assert(s[owner.len() as int] == '/');
    if at < owner.len() {
        assert(s[at] == owner[at]);
    }
    assert(s.take(at) =~= owner);
    assert(s.skip(at + 1) =~= rest);
}

proof fn lemma_no_slash_off(s: Seq<char>)
    requires
        s.len() > 0,
        s[s.len() - 1] != '/',
    ensures
        text::trim_end_of(s, CharClass::Is('/')) == s,
        text::trim_end_of(s + "/"@, CharClass::Is('/')) == s,
{
    reveal_strlit("/");
    assert(s.last() == s[s.len() - 1]);
    let longer = s + "/"@;
    assert(longer.last() == '/');
    assert(longer.drop_last() =~= s);
}

/// An owner and a name with a slash between them name a repository; a slash or `.git` behind them
/// changes nothing.
pub proof fn law_owner_and_name_are_read(owner: Seq<char>, name: Seq<char>)
    requires
        is_segment(owner),
        is_segment(name),
        !text::finishes_with(name, ".git"@),
    ensures
        repository::owner_name(owner + "/"@ + name) == Ok::<RepositoryModel, ParseRepositoryError>(
            RepositoryModel { owner, name },
        ),
        repository::owner_name(owner + "/"@ + name + "/"@) == Ok::<
            RepositoryModel,
            ParseRepositoryError,
        >(RepositoryModel { owner, name }),
        repository::owner_name(owner + "/"@ + (name + ".git"@)) == Ok::<
            RepositoryModel,
            ParseRepositoryError,
        >(RepositoryModel { owner, name }),
{
    reveal_strlit("/");
    reveal_strlit(".git");
    let s = owner + "/"@ + name;
    assert(s[s.len() - 1] == name[name.len() - 1]);
    lemma_no_slash_off(s);
    lemma_two_pieces(owner, name);
    lemma_one_piece(name);
    let named = name + ".git"@;
    assert(is_segment(named)) by {
        assert forall|k: int| 0 <= k < named.len() implies #[trigger] named[k] != '/' by {
            if k < name.len() {
                assert(named[k] == name[k]);
            }
        }
    }
    let t = owner + "/"@ + named;
    assert(t[t.len() - 1] == named[named.len() - 1]);
    lemma_no_slash_off(t);
    lemma_two_pieces(owner, named);
    lemma_one_piece(named);
    assert(seq![owner] + seq![name] =~= seq![owner, name]);
    assert(seq![owner] + seq![named] =~= seq![owner, named]);
    assert(named.subrange(named.len() - 4, named.len() as int) =~= ".git"@);
    assert(named.take(named.len() - 4) =~= name);
    assert(text::trim_end_text(named, ".git"@) == text::trim_end_text(name, ".git"@));
}

/// A text without a slash, or with a third part, names no repository.
pub proof fn law_other_forms_name_none(a: Seq<char>, b: Seq<char>, c: Seq<char>)
    requires
        is_segment(a),
        is_segment(b),
        is_segment(c),
    ensures
        repository::owner_name(a) == Err::<RepositoryModel, ParseRepositoryError>(
            ParseRepositoryError::InvalidFormat,
        ),
        repository::owner_name(a + "/"@ + (b + "/"@ + c)) == Err::<
            RepositoryModel,
            ParseRepositoryError,
        >(ParseRepositoryError::InvalidFormat),
        repository::owner_name("/"@ + a) == Err::<RepositoryModel, ParseRepositoryError>(
            ParseRepositoryError::InvalidFormat,
        ),
{
    reveal_strlit("/");
    lemma_no_slash_off(a);
    lemma_one_piece(a);
    let s = a + "/"@ + (b + "/"@ + c);
    assert(s[s.len() - 1] == c[c.len() - 1]);
    lemma_no_slash_off(s);
    lemma_two_pieces(a, b + "/"@ + c);
    lemma_two_pieces(b, c);
    lemma_one_piece(c);
    let t = "/"@ + a;
    assert(t[t.len() - 1] == a[a.len() - 1]);
    lemma_no_slash_off(t);
    let class = CharClass::Is('/');
    assert(t[0] == '/');
    assert(text::class_from(t, class, 0) == 0);
    assert(t.take(0) =~= Seq::<char>::empty());
}

/// A URL of the host names the owner and the repository of its path, whether it ends in a slash or
/// not; one of another host is refused.
pub proof fn law_urls_name_owner_and_name(
    host: Option<Seq<char>>,
    owner: Seq<char>,
    name: Seq<char>,
)
    requires
        is_segment(owner),
        is_segment(name),
        !text::finishes_with(name, ".git"@),
    ensures
        host == Some("github.com"@) ==> repository::url_repository(
            Some((host, Some(seq![owner, name]))),
        ) == Ok::<RepositoryModel, ParseRepositoryError>(RepositoryModel { owner, name }),
        host == Some("github.com"@) ==> repository::url_repository(
            Some((host, Some(seq![owner, name, Seq::empty()]))),
        ) == Ok::<RepositoryModel, ParseRepositoryError>(RepositoryModel { owner, name }),
        host == Some("github.com"@) ==> repository::url_repository(
            Some((host, Some(seq![owner]))),
        ) is Err,
        host == Some("github.com"@) ==> repository::url_repository(
            Some((host, Some(seq![owner, name, owner]))),
        ) is Err,
        host != Some("github.com"@) ==> repository::url_repository(
            Some((host, Some(seq![owner, name]))),
        ) == Err::<RepositoryModel, ParseRepositoryError>(ParseRepositoryError::UnsupportedHost),
{
    reveal(Seq::filter);
    law_owner_and_name_are_read(owner, name);
    let none = Seq::<Seq<char>>::empty();
    let empty = Seq::<char>::empty();
    assert(repository::filled(none) =~= none);
    let one = seq![owner];
    assert(one.drop_last() =~= none);
    assert(repository::filled(one) =~= one);
    let two = seq![owner, name];
    assert(two.drop_last() =~= one);
    assert(repository::filled(two) =~= two);
    let ended = seq![owner, name, empty];
    assert(ended.drop_last() =~= two);
    assert(repository::filled(ended) =~= two);
    let three = seq![owner, name, owner];
    assert(three.drop_last() =~= two);
    assert(repository::filled(three) =~= three);
}

/// A text is read as a URL where it starts as one, and as an owner and a name where not.
pub proof fn law_urls_start_with_scheme(rest: Seq<char>, owner: Seq<char>, name: Seq<char>)
    requires
        is_segment(owner),
        is_segment(name),
        !text::finishes_with(name, ".git"@),
        forall|k: int| 0 <= k < owner.len() ==> #[trigger] owner[k] != ':',
    ensures
        repository::read_repository("https://"@ + rest) == repository::url_repository(
            repository::url_parts("https://"@ + rest),
        ),
        repository::read_repository("http://"@ + rest) == repository::url_repository(
            repository::url_parts("http://"@ + rest),
        ),
        repository::read_repository(owner + "/"@ + name) == Ok::<
            RepositoryModel,
            ParseRepositoryError,
        >(RepositoryModel { owner, name }),
{
    reveal_strlit("https://");
    reveal_strlit("http://");
    reveal_strlit("/");
    assert(("https://"@ + rest).subrange(0, 8) =~= "https://"@);
    assert(("http://"@ + rest).subrange(0, 7) =~= "http://"@);
    law_owner_and_name_are_read(owner, name);
    let s = owner + "/"@ + name;
    assert(s[owner.len() as int] == '/');
    if text::begins_with(s, "https://"@) {
        assert(s.subrange(0, 8)[5] == ':');
        assert(s.subrange(0, 8)[0] == 'h' && s.subrange(0, 8)[1] == 't');
        assert(s.subrange(0, 8)[2] == 't' && s.subrange(0, 8)[3] == 'p');
        assert(s.subrange(0, 8)[4] == 's');
        assert(s[5] == ':');
        if owner.len() > 5 {
            assert(s[5] == owner[5]);
        }
        assert(s.subrange(0, 8)[owner.len() as int] == '/');
    }
    if text::begins_with(s, "http://"@) {
        assert(s.subrange(0, 7)[4] == ':');
        assert(s[4] == ':');
        if owner.len() > 4 {
            assert(s[4] == owner[4]);
        }
        assert(s.subrange(0, 7)[owner.len() as int] == '/');
    }
}

/// A rate limit that has ended is told with no minutes left; a number of seconds that cannot be
/// read is passed over, and where nothing can be read nothing is told of the time.
pub proof fn law_rate_limit_without_times(
    fields: Seq<(Seq<char>, Seq<char>)>,
    seconds: nat,
    odd: Seq<char>,
    now: Timestamp,
)
    requires
        has_header(fields, "retry-after"@, odd),
        text::read_signed(text::trimmed(odd), i64::MAX as nat) is None,
        seconds <= 253_402_300_799,
    ensures
        has_header(fields, "x-ratelimit-reset"@, text::decimal(seconds)) && seconds * 1_000_000_000
            <= now ==> response::reset_words(fields, now) == "; resets in "@ + text::decimal(0)
            + "m"@,
        (forall|n: int| 0 <= n < fields.len() ==> (#[trigger] fields[n]).0 != "x-ratelimit-reset"@)
            ==> response::reset_words(fields, now).len() == 0,
{
    law_last_field_counts(fields, "retry-after"@, odd);
    law_last_field_counts(fields, "x-ratelimit-reset"@, text::decimal(seconds));
    lemma_signed(seconds);
}

/// A name that is nothing but `.git` names no repository.
pub proof fn law_bare_suffix_names_none(owner: Seq<char>)
    requires
        is_segment(owner),
    ensures
        repository::owner_name(owner + "/"@ + ".git"@) == Err::<
            RepositoryModel,
            ParseRepositoryError,
        >(ParseRepositoryError::InvalidFormat),
        repository::owner_name(owner + "/"@) == Err::<RepositoryModel, ParseRepositoryError>(
            ParseRepositoryError::InvalidFormat,
        ),
{
    reveal_strlit("/");
    reveal_strlit(".git");
    let name = ".git"@;
    let s = owner + "/"@ + name;
    assert(s[s.len() - 1] == name[name.len() - 1]);
    lemma_no_slash_off(s);
    lemma_no_slash_off(owner);
    lemma_two_pieces(owner, name);
    lemma_one_piece(name);
    lemma_one_piece(owner);
    assert(seq![owner] + seq![name] =~= seq![owner, name]);
    assert(name.subrange(0, 4) =~= name);
    assert(name.take(0) =~= Seq::<char>::empty());
    assert(text::trim_end_text(name, ".git"@) == text::trim_end_text(
        Seq::<char>::empty(),
        ".git"@,
    ));
}

/// Each failure is put in words that tell what failed and why.
pub proof fn law_failures_have_words(why: Seq<char>)
    ensures
        ErrorModel::Start(why).words() == "could not start GitHub CLI: "@ + why,
        ErrorModel::Request(why).words() == "GitHub CLI request failed: "@ + why,
        ErrorModel::RateLimited(why).words() == "GitHub API rate limit reached"@ + why,
        ErrorModel::InvalidResponse(why).words() == "GitHub CLI returned invalid Actions data: "@
            + why,
        ErrorModel::StatusWorker.words() == "a workflow status worker stopped unexpectedly"@,
        ParseRepositoryError::InvalidFormat.words()
            == "repository must be a GitHub URL or OWNER/REPO"@,
        ParseRepositoryError::UnsupportedHost.words() == "repository URL must use github.com"@,
{
}

/// The names of header fields are read in small letters, whatever their case; a line without a
/// colon is no field.
pub proof fn law_header_names_ignore_case(
    lines: Seq<Seq<char>>,
    name: Seq<char>,
    value: Seq<char>,
    other: Seq<char>,
)
    requires
        texts::is_one_word(name),
        forall|k: int| 0 <= k < name.len() ==> #[trigger] name[k] != ':',
        value.len() > 0,
        !text::is_space(value[0]),
        !text::is_space(value[value.len() - 1]),
        forall|k: int| 0 <= k < other.len() ==> #[trigger] other[k] != ':',
    ensures
        response::fields_of(lines.push(name + ":"@ + (" "@ + value))) == response::fields_of(
            lines,
        ).push((text::lowercase(name), value)),
        response::fields_of(lines.push(other)) == response::fields_of(lines),
{
    reveal_strlit(":");
    reveal_strlit(" ");
    let behind = " "@ + value;
    let line = name + ":"@ + behind;
    assert forall|k: int| 0 <= k < name.len() implies !text::occurs_at(line, ":"@, k) by {
        assert(line[k] == name[k]);
        if text::occurs_at(line, ":"@, k) {
            assert(line.subrange(k, k + 1)[0] == ':');
        }
    }
    texts::law_cut_is_at_first(name, ":"@, behind);
    assert(texts::is_core(name, CharClass::Space, 0, name.len() as int));
    texts::law_trimming_leaves_core(name, CharClass::Space, 0, name.len() as int);
    assert(name.subrange(0, name.len() as int) =~= name);
    assert(behind[0] == ' ');
    assert(behind[1] == value[0]);
    assert(behind[behind.len() - 1] == value[value.len() - 1]);
    assert(texts::is_core(behind, CharClass::Space, 1, behind.len() as int));
    texts::law_trimming_leaves_core(behind, CharClass::Space, 1, behind.len() as int);
    assert(behind.subrange(1, behind.len() as int) =~= value);
    assert(lines.push(line).drop_last() =~= lines);
    assert(lines.push(other).drop_last() =~= lines);
    texts::law_uncut_holds_none(other, ":"@);
    if exists|k: int| text::occurs_at(other, ":"@, k) {
        let k = choose|k: int| text::occurs_at(other, ":"@, k);
        assert(other.subrange(k, k + 1)[0] == ':');
        assert(other[k] == ':');
    }
}

/// A reply whose lines end in line feeds alone is parted at its first empty line; without an empty
/// line there is no body. Nothing at all is a failure.
pub proof fn law_replies_end_lines_either_way(
    head: Seq<char>,
    body: Seq<char>,
    stderr: Seq<char>,
    status: Seq<char>,
    now: Timestamp,
)
    requires
        forall|k: int| 0 <= k < head.len() ==> #[trigger] head[k] != '\r',
        forall|k: int| 0 <= k < body.len() ==> #[trigger] body[k] != '\r',
        forall|k: int| 0 <= k < head.len() ==> !text::occurs_at(head + "\n\n"@ + body, "\n\n"@, k),
    ensures
        response::head_and_body(head + "\n\n"@ + body) == (head, body),
        response::head_and_body(Seq::empty()) == (Seq::<char>::empty(), Seq::<char>::empty()),
        response::page_outcome(Seq::empty(), stderr, status, now) matches Err(error)
            && says_failure(error, stderr, status),
{
    reveal_strlit("\r\n\r\n");
    reveal_strlit("\n\n");
    let all = head + "\n\n"@ + body;
    texts::law_uncut_holds_none(all, "\r\n\r\n"@);
    if exists|k: int| text::occurs_at(all, "\r\n\r\n"@, k) {
        let k = choose|k: int| text::occurs_at(all, "\r\n\r\n"@, k);
        assert(all.subrange(k, k + 4)[0] == '\r');
        assert(all[k] == '\r');
        if k < head.len() {
            assert(all[k] == head[k]);
        } else if k >= head.len() + 2 {
            assert(all[k] == body[k - head.len() - 2]);
        }
    }
    texts::law_cut_is_at_first(head, "\n\n"@, body);
    let none = Seq::<char>::empty();
    texts::law_uncut_holds_none(none, "\r\n\r\n"@);
    texts::law_uncut_holds_none(none, "\n\n"@);
}

} // verus!
