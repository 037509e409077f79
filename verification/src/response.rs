//! What the GitHub CLI prints, and how it is understood.
use vstd::prelude::*;
use vstd::string::*;
use vstd::utf8::*;

use crate::cache::Timestamp;
use crate::text;

verus! {

/// What a run of the GitHub CLI left behind.
#[derive(Debug, PartialEq, Eq)]
pub struct GhOutput {
    pub success: bool,
    pub status: String,
    pub stdout: Vec<u8>,
    pub stderr: Vec<u8>,
}

/// Why a request failed.
#[derive(Debug, PartialEq, Eq)]
pub enum Error {
    /// The GitHub CLI could not be started.
    Start(String),
    /// The GitHub CLI reported a failure.
    Request(String),
    /// The rate limit of the API is used up.
    RateLimited(String),
    /// The reply is not the JSON that was asked for.
    InvalidResponse(String),
    /// A worker thread stopped.
    StatusWorker,
}

/// What an [`Error`] says.
#[verifier::ext_equal]
pub enum ErrorModel {
    Start(Seq<char>),
    Request(Seq<char>),
    RateLimited(Seq<char>),
    InvalidResponse(Seq<char>),
    StatusWorker,
}

impl View for Error {
    type V = ErrorModel;

    open spec fn view(&self) -> ErrorModel {
        match self {
            Error::Start(s) => ErrorModel::Start(s@),
            Error::Request(s) => ErrorModel::Request(s@),
            Error::RateLimited(s) => ErrorModel::RateLimited(s@),
            Error::InvalidResponse(s) => ErrorModel::InvalidResponse(s@),
            Error::StatusWorker => ErrorModel::StatusWorker,
        }
    }
}

impl ErrorModel {
    /// The error in words.
    pub open spec fn words(self) -> Seq<char> {
        match self {
            ErrorModel::Start(s) => "could not start GitHub CLI: "@ + s,
            ErrorModel::Request(s) => "GitHub CLI request failed: "@ + s,
            ErrorModel::RateLimited(s) => "GitHub API rate limit reached"@ + s,
            ErrorModel::InvalidResponse(s) => "GitHub CLI returned invalid Actions data: "@ + s,
            ErrorModel::StatusWorker => "a workflow status worker stopped unexpectedly"@,
        }
    }
}

impl Error {
    /// Puts the error in words.
    pub fn message(&self) -> (r: String)
        ensures
            r@ == self@.words(),
    {
        match self {
            Error::Start(s) => text::concat("could not start GitHub CLI: ", s.as_str()),
            Error::Request(s) => text::concat("GitHub CLI request failed: ", s.as_str()),
            Error::RateLimited(s) => text::concat("GitHub API rate limit reached", s.as_str()),
            Error::InvalidResponse(s) => text::concat(
                "GitHub CLI returned invalid Actions data: ",
                s.as_str(),
            ),
            Error::StatusWorker => "a workflow status worker stopped unexpectedly".to_owned(),
        }
    }
}

/// The failure that the CLI reports: its message, or its exit status where it printed none.
pub open spec fn request_failure(stderr: Seq<char>, status: Seq<char>) -> ErrorModel {
    let message = text::trimmed(stderr);
    ErrorModel::Request(
        if message.len() == 0 {
            "gh exited with status "@ + status
        } else {
            message
        },
    )
}

/// The failure that printed text and an exit status tell of.
pub fn request_error_of(stderr: &str, status: &str) -> (r: Error)
    ensures
        r@ == request_failure(stderr@, status@),
{
    let message = text::trim(stderr);
    if message.as_str().is_empty() {
        Error::Request(text::concat("gh exited with status ", status))
    } else {
        Error::Request(message)
    }
}

/// The failure that an output tells of.
pub fn request_error(output: &GhOutput) -> (r: Error)
    ensures
        r@ == request_failure(text::lossy_text(output.stderr@), output.status@),
{
    let stderr = text::from_utf8_lossy(output.stderr.as_slice());
    request_error_of(stderr.as_str(), output.status.as_str())
}

/// What a successful run printed; otherwise its failure.
pub fn successful_stdout(output: GhOutput) -> (r: Result<Vec<u8>, Error>)
    ensures
        match r {
            Ok(stdout) => output.success && stdout@ == output.stdout@,
            Err(error) => !output.success && error@ == request_failure(
                text::lossy_text(output.stderr@),
                output.status@,
            ),
        },
{
    if !output.success {
        return Err(request_error(&output));
    }
    Ok(output.stdout)
}

/// The header fields of a response, in the order in which they came.
#[derive(Debug, PartialEq, Eq)]
pub struct Headers {
    pub fields: Vec<(String, String)>,
}

/// The names and values of header fields.
pub open spec fn fields_view(fields: Seq<(String, String)>) -> Seq<(Seq<char>, Seq<char>)> {
    fields.map_values(|f: (String, String)| (f.0@, f.1@))
}

impl View for Headers {
    type V = Seq<(Seq<char>, Seq<char>)>;

    open spec fn view(&self) -> Seq<(Seq<char>, Seq<char>)> {
        fields_view(self.fields@)
    }
}

/// The value of a header field; of several with one name the last counts.
pub open spec fn lookup(fields: Seq<(Seq<char>, Seq<char>)>, name: Seq<char>) -> Option<Seq<char>>
    decreases fields.len(),
{
    if fields.len() == 0 {
        None
    } else if fields.last().0 == name {
        Some(fields.last().1)
    } else {
        lookup(fields.drop_last(), name)
    }
}

/// The value of a header field.
pub fn header_value(headers: &Headers, name: &str) -> (r: Option<String>)
    ensures
        text::view_opt(r) == lookup(headers@, name@),
{
    let mut i: usize = headers.fields.len();
    assert(headers@.take(i as int) =~= headers@);
    while i > 0
        invariant
            i <= headers.fields@.len(),
            lookup(headers@, name@) == lookup(headers@.take(i as int), name@),
        decreases i,
    {
        let ghost t = headers@.take(i as int);
        assert(t.drop_last() =~= headers@.take(i - 1));
        assert(t.last() == (headers.fields@[i - 1].0@, headers.fields@[i - 1].1@));
        if text::same(headers.fields[i - 1].0.as_str(), name) {
            return Some(headers.fields[i - 1].1.clone());
        }
        i = i - 1;
    }
    None
}

/// The fields that header lines hold: names in lower case, values without white space around
/// them. Lines without a colon hold none.
pub open spec fn fields_of(lines: Seq<Seq<char>>) -> Seq<(Seq<char>, Seq<char>)>
    decreases lines.len(),
{
    if lines.len() == 0 {
        Seq::empty()
    } else {
        let before = fields_of(lines.drop_last());
        match text::cut_first(lines.last(), ":"@) {
            Some((name, value)) => before.push(
                (text::lowercase(text::trimmed(name)), text::trimmed(value)),
            ),
            None => before,
        }
    }
}

/// The head and the body of a response. They are parted by an empty line.
pub open spec fn head_and_body(s: Seq<char>) -> (Seq<char>, Seq<char>) {
    match text::cut_first(s, "\r\n\r\n"@) {
        Some(parts) => parts,
        None => match text::cut_first(s, "\n\n"@) {
            Some(parts) => parts,
            None => (s, Seq::empty()),
        },
    }
}

/// The status code of a response: the second word of its first line.
pub open spec fn status_code(head: Seq<char>) -> Option<nat> {
    let lines = text::lines_of(head);
    if lines.len() == 0 {
        None
    } else {
        let words = text::words_of(lines[0]);
        if words.len() < 2 {
            None
        } else {
            text::read_unsigned(words[1], u16::MAX as nat)
        }
    }
}

/// The header fields of a response.
pub open spec fn head_fields(head: Seq<char>) -> Seq<(Seq<char>, Seq<char>)> {
    let lines = text::lines_of(head);
    if lines.len() == 0 {
        Seq::empty()
    } else {
        fields_of(lines.skip(1))
    }
}

/// A status code as a plain number.
pub open spec fn code_view(code: Option<u16>) -> Option<nat> {
    match code {
        Some(code) => Some(code as nat),
        None => None,
    }
}

/// Splits a response text into a status code, headers, and body.
pub fn split_http_text(response: &str) -> (r: (Option<u16>, Headers, String))
    ensures
        code_view(r.0) == status_code(head_and_body(response@).0),
        r.1@ == head_fields(head_and_body(response@).0),
        r.2@ == head_and_body(response@).1,
{
    let (head, body) = match text::split_once(response, "\r\n\r\n") {
        Some(parts) => parts,
        None => match text::split_once(response, "\n\n") {
            Some(parts) => parts,
            None => (response.to_owned(), String::new()),
        },
    };
    let lines = text::lines(head.as_str());
    let ghost all = text::lines_of(head@);
    let mut fields: Vec<(String, String)> = Vec::new();
    if lines.len() == 0 {
        assert(fields_view(fields@) =~= Seq::empty());
        return (None, Headers { fields }, body);
    }
    assert(all[0] == lines@[0]@);
    let words = text::split_whitespace(lines[0].as_str());
    let code = if words.len() < 2 {
        None
    } else {
        assert(text::views(words@)[1] == words@[1]@);
        match text::parse_unsigned(words[1].as_str(), 65535) {
            Some(code) => Some(code as u16),
            None => None,
        }
    };
    let ghost rest = all.skip(1);
    let mut i: usize = 1;
    assert(fields_view(fields@) =~= fields_of(rest.take(0)));
    while i < lines.len()
        invariant
            1 <= i <= lines@.len(),
            all == text::views(lines@),
            rest == all.skip(1),
            fields_view(fields@) == fields_of(rest.take(i - 1)),
        decreases lines@.len() - i,
    {
        let ghost before = fields_view(fields@);
        assert(rest.take(i as int).drop_last() =~= rest.take(i - 1));
        assert(rest.take(i as int).last() == lines@[i as int]@);
        if let Some((name, value)) = text::split_once(lines[i].as_str(), ":") {
            let name = text::to_lowercase(text::trim(name.as_str()).as_str());
            let value = text::trim(value.as_str());
            fields.push((name, value));
            assert(fields_view(fields@) =~= before.push((name@, value@)));
        }
        i = i + 1;
    }
    assert(rest.take(i - 1) =~= rest);
    (code, Headers { fields }, body)
}

/// Splits the output of `gh api --include` into a status code, headers, and body.
pub fn split_http_response(stdout: &[u8]) -> (r: (Option<u16>, Headers, Vec<u8>))
    ensures
        code_view(r.0) == status_code(head_and_body(text::lossy_text(stdout@)).0),
        r.1@ == head_fields(head_and_body(text::lossy_text(stdout@)).0),
        r.2@ == encode_utf8(head_and_body(text::lossy_text(stdout@)).1),
{
    let response = text::from_utf8_lossy(stdout);
    let (code, headers, body) = split_http_text(response.as_str());
    (code, headers, text::bytes_of(body.as_str()))
}

/// The reply to a request for a page.
#[derive(Debug, PartialEq, Eq)]
pub enum PageResponse {
    /// The page is the one that the validator stands for.
    NotModified,
    /// The page, and the validator that stands for it.
    Modified { body: Vec<u8>, etag: Option<String> },
}

/// What a [`PageResponse`] holds.
#[verifier::ext_equal]
pub enum PageModel {
    NotModified,
    Modified { body: Seq<u8>, etag: Option<Seq<char>> },
}

impl View for PageResponse {
    type V = PageModel;

    open spec fn view(&self) -> PageModel {
        match self {
            PageResponse::NotModified => PageModel::NotModified,
            PageResponse::Modified { body, etag } => PageModel::Modified {
                body: body@,
                etag: text::view_opt(*etag),
            },
        }
    }
}

/// The outcome of a request for a page, by what it holds.
pub open spec fn page_view(r: Result<PageResponse, Error>) -> Result<PageModel, ErrorModel> {
    match r {
        Ok(page) => Ok(page@),
        Err(error) => Err(error@),
    }
}

/// The arguments of the CLI that request a page, with a validator where there is one.
pub open spec fn page_arguments(path: Seq<char>, etag: Option<Seq<char>>) -> Seq<Seq<char>> {
    let plain = seq!["api"@, "-i"@, "-X"@, "GET"@, path];
    match etag {
        Some(etag) => plain.push("-H"@).push("If-None-Match: "@ + etag),
        None => plain,
    }
}

/// The arguments of the CLI that request a page of workflow runs, reusing a cached validator
/// when present.
///
/// GitHub does not charge the primary rate limit for a conditional request that returns
/// `304 Not Modified`, which makes this the cheapest way to poll unchanged history.
pub fn fetch_page_conditional(path: &str, etag: &Option<String>) -> (r: Vec<String>)
    ensures
        text::views(r@) == page_arguments(path@, text::view_opt(*etag)),
{
    let mut r: Vec<String> = Vec::new();
    r.push("api".to_owned());
    r.push("-i".to_owned());
    r.push("-X".to_owned());
    r.push("GET".to_owned());
    r.push(path.to_owned());
    if let Some(etag) = etag {
        r.push("-H".to_owned());
        r.push(text::concat("If-None-Match: ", etag.as_str()));
    }
    assert(text::views(r@) =~= page_arguments(path@, text::view_opt(*etag)));
    r
}

/// The first and the last second that a `chrono::DateTime<Utc>` can hold.
pub const FIRST_SECOND: i64 = -8_334_601_228_800;

pub const LAST_SECOND: i64 = 8_210_266_876_799;

/// `chrono::DateTime::from_timestamp` of whole seconds: the point in time that lies so many
/// seconds behind the start of 1970, where it is no earlier than the year -262143 and no later
/// than the year 262142. The seconds are handed back with `DateTime::timestamp`.
#[verifier::external_body]
fn instant_of(seconds: i64) -> (r: Option<i64>)
    ensures
        r == (if FIRST_SECOND <= seconds <= LAST_SECOND {
            Some(seconds)
        } else {
            None
        }),
{
    chrono::DateTime::from_timestamp(seconds, 0).map(|instant| instant.timestamp())
}

/// The whole minutes from one point in time to a later one, and none to an earlier one.
pub open spec fn minutes_until(seconds: int, now: Timestamp) -> int {
    let left = seconds * 1_000_000_000 - now;
    if left <= 0 {
        0
    } else {
        left / 60_000_000_000
    }
}

/// When a used up rate limit allows requests again, in words.
pub open spec fn reset_words(fields: Seq<(Seq<char>, Seq<char>)>, now: Timestamp) -> Seq<char> {
    let retry = match lookup(fields, "retry-after"@) {
        Some(value) => text::read_signed(text::trimmed(value), i64::MAX as nat),
        None => None,
    };
    let reset = match lookup(fields, "x-ratelimit-reset"@) {
        Some(value) => text::read_signed(text::trimmed(value), i64::MAX as nat),
        None => None,
    };
    match retry {
        Some(seconds) => "; retry in "@ + text::decimal_int(seconds) + "s"@,
        None => match reset {
            Some(seconds) => if FIRST_SECOND <= seconds <= LAST_SECOND {
                "; resets in "@ + text::decimal(minutes_until(seconds, now) as nat) + "m"@
            } else {
                Seq::empty()
            },
            None => Seq::empty(),
        },
    }
}

/// The requests that a rate limit is for, in words.
pub open spec fn resource_words(fields: Seq<(Seq<char>, Seq<char>)>) -> Seq<char> {
    match lookup(fields, "x-ratelimit-resource"@) {
        Some(resource) => " for "@ + resource + " requests"@,
        None => Seq::empty(),
    }
}

/// Whether a refused request tells of a used up rate limit: no request is left, or the message
/// says so.
pub open spec fn is_rate_limited(fields: Seq<(Seq<char>, Seq<char>)>, stderr: Seq<char>) -> bool {
    ||| lookup(fields, "x-ratelimit-remaining"@) == Some("0"@)
    ||| text::holds_text(text::lowercase(stderr), "rate limit"@)
}

/// The failure that a refused request tells of.
pub open spec fn refusal(
    fields: Seq<(Seq<char>, Seq<char>)>,
    stderr: Seq<char>,
    status: Seq<char>,
    now: Timestamp,
) -> ErrorModel {
    if is_rate_limited(fields, stderr) {
        ErrorModel::RateLimited(resource_words(fields) + reset_words(fields, now))
    } else {
        request_failure(stderr, status)
    }
}

/// Whether a point in time is one that a `chrono::DateTime<Utc>` can hold.
pub open spec fn is_calendar(t: int) -> bool {
    FIRST_SECOND * 1_000_000_000 <= t < (LAST_SECOND + 1) * 1_000_000_000
}

/// The failure that a refused request tells of. A refusal that is not a rate limit, such as a
/// permissions problem, keeps its message.
pub fn rate_limit_error(headers: &Headers, stderr: &str, status: &str, now: Timestamp) -> (r: Error)
    requires
        is_calendar(now as int),
    ensures
        r@ == refusal(headers@, stderr@, status@, now),
{
    let exhausted = match header_value(headers, "x-ratelimit-remaining") {
        Some(remaining) => text::same(remaining.as_str(), "0"),
        None => false,
    };
    if !exhausted && !text::contains(text::to_lowercase(stderr).as_str(), "rate limit") {
        return request_error_of(stderr, status);
    }
    let mut detail = match header_value(headers, "x-ratelimit-resource") {
        Some(resource) => {
            let mut words = text::concat(" for ", resource.as_str());
            words.append(" requests");
            words
        },
        None => String::new(),
    };
    assert(detail@ =~= resource_words(headers@));
    let retry = match header_value(headers, "retry-after") {
        Some(value) => text::parse_signed(text::trim(value.as_str()).as_str(), i64::MAX),
        None => None,
    };
    let reset = match header_value(headers, "x-ratelimit-reset") {
        Some(value) => text::parse_signed(text::trim(value.as_str()).as_str(), i64::MAX),
        None => None,
    };
    let words = match retry {
        Some(seconds) => {
            let mut words = text::concat("; retry in ", text::signed_text(seconds).as_str());
            words.append("s");
            words
        },
        None => match reset {
            Some(seconds) => match instant_of(seconds) {
                Some(seconds) => {
                    let left: i128 = seconds as i128 * 1_000_000_000 - now;
                    let minutes: u128 = if left <= 0 {
                        0
                    } else {
                        left as u128 / 60_000_000_000
                    };
                    let mut words = text::concat(
                        "; resets in ",
                        text::large_number_text(minutes).as_str(),
                    );
                    words.append("m");
                    words
                },
                None => String::new(),
            },
            None => String::new(),
        },
    };
    assert(words@ =~= reset_words(headers@, now));
    detail.append(words.as_str());
    Error::RateLimited(detail)
}

/// How the reply to a request for a page is understood.
pub open spec fn page_outcome(
    stdout: Seq<char>,
    stderr: Seq<char>,
    status: Seq<char>,
    now: Timestamp,
) -> Result<PageModel, ErrorModel> {
    let (head, body) = head_and_body(stdout);
    let fields = head_fields(head);
    match status_code(head) {
        None => Err(request_failure(stderr, status)),
        Some(code) => if code == 304 {
            Ok(PageModel::NotModified)
        } else if 200 <= code < 300 {
            Ok(PageModel::Modified { body: encode_utf8(body), etag: lookup(fields, "etag"@) })
        } else if code == 403 || code == 429 {
            Err(refusal(fields, stderr, status, now))
        } else {
            Err(request_failure(stderr, status))
        },
    }
}

/// Understands the texts that a request for a page printed.
pub fn page_response_of(stdout: &str, stderr: &str, status: &str, now: Timestamp) -> (r: Result<
    PageResponse,
    Error,
>)
    requires
        is_calendar(now as int),
    ensures
        page_view(r) == page_outcome(stdout@, stderr@, status@, now),
{
    let (code, headers, body) = split_http_text(stdout);
    match code {
        Some(code) => if code == 304 {
            Ok(PageResponse::NotModified)
        } else if 200 <= code && code < 300 {
            Ok(
                PageResponse::Modified {
                    body: text::bytes_of(body.as_str()),
                    etag: header_value(&headers, "etag"),
                },
            )
        } else if code == 403 || code == 429 {
            Err(rate_limit_error(&headers, stderr, status, now))
        } else {
            Err(request_error_of(stderr, status))
        },
        None => Err(request_error_of(stderr, status)),
    }
}

/// Understands what a request for a page left behind.
pub fn parse_page_response(output: GhOutput, now: Timestamp) -> (r: Result<PageResponse, Error>)
    requires
        is_calendar(now as int),
    ensures
        page_view(r) == page_outcome(
            text::lossy_text(output.stdout@),
            text::lossy_text(output.stderr@),
            output.status@,
            now,
        ),
{
    let stdout = text::from_utf8_lossy(output.stdout.as_slice());
    let stderr = text::from_utf8_lossy(output.stderr.as_slice());
    page_response_of(stdout.as_str(), stderr.as_str(), output.status.as_str(), now)
}

} // verus!
