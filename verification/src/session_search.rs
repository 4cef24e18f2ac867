//! Searching past sessions: what is asked of the database, and how its answers are shown.

use crate::bytes;
use crate::json;
use crate::json::{Json, JsonView};
use crate::models;
use crate::number;
use crate::text;
use vstd::prelude::*;

verus! {

/// A session that matches a search.
#[derive(Debug, Clone)]
pub struct SessionSearchResult {
    pub session_id: String,
    pub title: Option<String>,
    pub started_at: String,
    pub message_count: i64,
    pub snippet: String,
}

/// A message of a session.
#[derive(Debug)]
pub struct MessageRow {
    pub id: i64,
    pub role: String,
    pub content: Option<String>,
    pub timestamp: String,
}

/// A session.
#[derive(Debug, Clone)]
pub struct SessionSummary {
    pub id: String,
    pub title: Option<String>,
    pub started_at: String,
    pub message_count: i64,
    pub total_tokens: i64,
}

impl Clone for MessageRow {
    fn clone(&self) -> (r: Self)
        ensures
            r == *self,
    {
        MessageRow {
            id: self.id,
            role: self.role.clone(),
            content: models::copy_opt(&self.content),
            timestamp: self.timestamp.clone(),
        }
    }
}

// ---------------------------------------------------------------------------
// Search modes
// ---------------------------------------------------------------------------

/// The result that stands for a session when there is nothing to match.
pub open spec fn stands_for(r: SessionSearchResult, s: SessionSummary) -> bool {
    &&& r.session_id@ == s.id@
    &&& r.title == s.title
    &&& r.started_at@ == s.started_at@
    &&& r.message_count == s.message_count
    &&& r.snippet@ == Seq::<char>::empty()
}

/// Whether a search falls back to the recent sessions: there is nothing to search for.
pub fn browses_instead(query: &str) -> (r: bool)
    ensures
        r == (query@.len() == 0),
{
    query.unicode_len() == 0
}

/// The recent sessions as results of a search.
pub fn results_from_summaries(summaries: &Vec<SessionSummary>) -> (r: Vec<SessionSearchResult>)
    ensures
        r@.len() == summaries@.len(),
        forall|i: int| #![trigger r@[i]]
            0 <= i < r@.len() ==> stands_for(r@[i], summaries@[i]),
{
    let mut out: Vec<SessionSearchResult> = Vec::new();
    let mut i: usize = 0;
    while i < summaries.len()
        invariant
            i <= summaries@.len(),
            out@.len() == i,
            forall|j: int| #![trigger out@[j]] 0 <= j < i ==> stands_for(out@[j], summaries@[j]),
        decreases summaries@.len() - i,
    {
        let s: &SessionSummary = &summaries[i];
        out.push(
            SessionSearchResult {
                session_id: s.id.clone(),
                title: models::copy_opt(&s.title),
                started_at: s.started_at.clone(),
                message_count: s.message_count,
                snippet: String::new(),
            },
        );
        i = i + 1;
    }
    out
}

/// How many messages of a window are those up to the one in its middle: half of them, but that one
/// is always there.
pub open spec fn up_to_middle(window: int) -> int {
    if window == 1 {
        1
    } else {
        window / 2
    }
}

/// How many messages are read up to the one in the middle of a window.
pub fn scroll_before(window: usize) -> (r: usize)
    ensures
        r == up_to_middle(window as int),
        r <= window,
{
    if window == 1 {
        1
    } else {
        window / 2
    }
}

/// How many messages are read behind the one in the middle of a window, once those up to it are
/// there.
pub fn scroll_after(window: usize, before: usize) -> (r: usize)
    requires
        before <= window,
    ensures
        r == window - before,
{
    window - before
}

/// The window: those up to the middle, which come newest first, turned round, then the others.
pub fn scroll_window(before: &Vec<MessageRow>, after: &Vec<MessageRow>) -> (r: Vec<MessageRow>)
    ensures
        r@ == before@.reverse() + after@,
{
    let mut out: Vec<MessageRow> = Vec::new();
    let n: usize = before.len();
    let mut i: usize = 0;
    while i < n
        invariant
            i <= n == before@.len(),
            out@ == before@.reverse().take(i as int),
        decreases n - i,
    {
        out.push(before[n - 1 - i].clone());
        i = i + 1;
    }
    assert(before@.reverse().take(i as int) =~= before@.reverse());
    let mut k: usize = 0;
    assert(out@ =~= before@.reverse() + after@.take(0));
    while k < after.len()
        invariant
            k <= after@.len(),
            out@ == before@.reverse() + after@.take(k as int),
        decreases after@.len() - k,
    {
        out.push(after[k].clone());
        assert(out@ =~= before@.reverse() + after@.take(k + 1));
        k = k + 1;
    }
    assert(after@.take(k as int) =~= after@);
    out
}

// ---------------------------------------------------------------------------
// The tool
// ---------------------------------------------------------------------------

/// What the tool is asked for.
#[derive(Debug)]
pub enum SearchRequest {
    /// Sessions cannot be searched.
    Disabled,
    Discover { query: String, limit: u64 },
    Scroll { session_id: String, message_id: Option<i64>, limit: u64 },
    Browse { limit: u64 },
    /// There is no such mode.
    UnknownMode,
}

/// What the tool is asked for, as plain texts.
pub enum SearchView {
    Disabled,
    Discover(Seq<char>, u64),
    Scroll(Seq<char>, Option<i64>, u64),
    Browse(u64),
    UnknownMode,
}

impl View for SearchRequest {
    type V = SearchView;

    open spec fn view(&self) -> SearchView {
        match *self {
            SearchRequest::Disabled => SearchView::Disabled,
            SearchRequest::Discover { query, limit } => SearchView::Discover(query@, limit),
            SearchRequest::Scroll { session_id, message_id, limit } => SearchView::Scroll(
                session_id@,
                message_id,
                limit,
            ),
            SearchRequest::Browse { limit } => SearchView::Browse(limit),
            SearchRequest::UnknownMode => SearchView::UnknownMode,
        }
    }
}

/// The limit in the arguments, or the usual one.
pub open spec fn limit_or(args: JsonView, usual: u64) -> u64 {
    match json::unsigned_member(args, "limit"@) {
        Some(n) => n,
        None => usual,
    }
}

/// The number of the message in the arguments.
pub open spec fn message_number(args: JsonView) -> Option<i64> {
    match json::member(args, "message_id"@) {
        Some(v) => json::signed_of(v),
        None => None,
    }
}

/// What the arguments of the tool ask for.
pub open spec fn searched(enabled: bool, args: JsonView) -> SearchView {
    let mode = match json::text_member(args, "mode"@) {
        Some(m) => m,
        None => "browse"@,
    };
    if !enabled {
        SearchView::Disabled
    } else if mode == "discover"@ {
        SearchView::Discover(
            models::text_or_empty(json::text_member(args, "query"@)),
            limit_or(args, 5),
        )
    } else if mode == "scroll"@ {
        SearchView::Scroll(
            models::text_or_empty(json::text_member(args, "session_id"@)),
            message_number(args),
            limit_or(args, 10),
        )
    } else if mode == "browse"@ {
        SearchView::Browse(limit_or(args, 10))
    } else {
        SearchView::UnknownMode
    }
}

fn text_arg(args: &Json, key: &str) -> (r: String)
    ensures
        r@ == models::text_or_empty(json::text_member(args@, key@)),
{
    match args.get_str(key) {
        Some(s) => s.to_owned(),
        None => String::new(),
    }
}

fn limit_arg(args: &Json, usual: u64) -> (r: u64)
    ensures
        r == limit_or(args@, usual),
{
    match args.get_u64("limit") {
        Some(n) => n,
        None => usual,
    }
}

/// What the arguments of the tool ask for.
pub fn search_request(enabled: bool, args: &Json) -> (r: SearchRequest)
    ensures
        r@ == searched(enabled, args@),
{
    if !enabled {
        return SearchRequest::Disabled;
    }
    let mode: String = match args.get_str("mode") {
        Some(m) => m.to_owned(),
        None => "browse".to_owned(),
    };
    if text::same(mode.as_str(), "discover") {
        SearchRequest::Discover { query: text_arg(args, "query"), limit: limit_arg(args, 5) }
    } else if text::same(mode.as_str(), "scroll") {
        let message_id: Option<i64> = match args.get("message_id") {
            Some(v) => v.as_i64(),
            None => None,
        };
        SearchRequest::Scroll {
            session_id: text_arg(args, "session_id"),
            message_id,
            limit: limit_arg(args, 10),
        }
    } else if text::same(mode.as_str(), "browse") {
        SearchRequest::Browse { limit: limit_arg(args, 10) }
    } else {
        SearchRequest::UnknownMode
    }
}

/// What the tool answers to a request that goes to no database; none where it does.
pub fn refusal_text(request: &SearchRequest) -> (r: Option<String>)
    ensures
        models::opt_text(r) == match request@ {
            SearchView::Disabled => Some("Session search is not enabled."@),
            SearchView::UnknownMode => Some("Unknown mode. Use discover, scroll, or browse."@),
            _ => None,
        },
{
    match request {
        SearchRequest::Disabled => Some("Session search is not enabled.".to_owned()),
        SearchRequest::UnknownMode => Some(
            "Unknown mode. Use discover, scroll, or browse.".to_owned(),
        ),
        _ => None,
    }
}

/// The title of a session.
pub open spec fn title_or(title: Option<String>) -> Seq<char> {
    match title {
        Some(t) => t@,
        None => "untitled"@,
    }
}

/// The line for a session that was found.
pub open spec fn result_line(r: SessionSearchResult) -> Seq<char> {
    "- ["@ + bytes::byte_prefix(r.session_id@, 8) + "] "@ + title_or(r.title) + " ("@
        + number::signed_decimal(r.message_count as int) + " msgs): "@ + r.snippet@
}

/// The line for a message.
pub open spec fn message_line(m: MessageRow) -> Seq<char> {
    "["@ + m.role@ + "] "@ + bytes::byte_prefix(m.timestamp@, 19) + ": "@ + models::text_or_empty(
        models::opt_text(m.content),
    )
}

/// The line for a session.
pub open spec fn session_line(s: SessionSummary) -> Seq<char> {
    "- ["@ + bytes::byte_prefix(s.id@, 8) + "] "@ + title_or(s.title) + " ("@
        + number::signed_decimal(s.message_count as int) + " msgs) — "@ + s.started_at@
}

fn title_of(title: &Option<String>) -> (r: &str)
    ensures
        r@ == title_or(*title),
{
    match title {
        Some(t) => t.as_str(),
        None => "untitled",
    }
}

/// What the tool answers to a search. Each identifier must be one that can be cut behind 8 bytes.
pub fn discover_text(results: &Vec<SessionSearchResult>) -> (r: String)
    requires
        forall|i: int| #![trigger results@[i]]
            0 <= i < results@.len() ==> bytes::cuttable(results@[i].session_id@, 8),
    ensures
        r@ == if results@.len() == 0 {
            "No matching sessions found."@
        } else {
            "Found "@ + number::decimal(results@.len()) + " sessions:\n"@ + text::joined(
                Seq::new(results@.len(), |i: int| result_line(results@[i])),
                "\n"@,
            )
        },
        forall|i: int| #![trigger results@[i]]
            0 <= i < results@.len() ==> text::includes(r@, results@[i].snippet@) && text::includes(
                r@,
                title_or(results@[i].title),
            ),
{
    if results.len() == 0 {
        return "No matching sessions found.".to_owned();
    }
    let ghost all = Seq::new(results@.len(), |i: int| result_line(results@[i]));
    let mut lines: Vec<String> = Vec::new();
    let mut i: usize = 0;
    assert(text::texts(lines@) =~= all.take(0));
    while i < results.len()
        invariant
            i <= results@.len(),
            all == Seq::new(results@.len(), |j: int| result_line(results@[j])),
            forall|j: int| #![trigger results@[j]]
                0 <= j < results@.len() ==> bytes::cuttable(results@[j].session_id@, 8),
            text::texts(lines@) == all.take(i as int),
        decreases results@.len() - i,
    {
        let ghost before = text::texts(lines@);
        let s: &SessionSearchResult = &results[i];
        let mut line: String = text::concat5(
            "- [",
            bytes::prefix(s.session_id.as_str(), 8),
            "] ",
            title_of(&s.title),
            " (",
        );
        line.append(number::show_signed(s.message_count).as_str());
        line.append(" msgs): ");
        line.append(s.snippet.as_str());
        lines.push(line);
        proof {
            assert(text::texts(lines@) =~= before.push(all[i as int]));
            assert(all.take(i + 1) =~= before.push(all[i as int]));
        }
        i = i + 1;
    }
    assert(all.take(i as int) =~= all);
    let out: String = text::concat4(
        "Found ",
        number::show_size(results.len()).as_str(),
        " sessions:\n",
        text::join(&lines, "\n").as_str(),
    );
    proof {
        let head = "Found "@ + number::decimal(results@.len()) + " sessions:\n"@;
        assert forall|j: int| #![trigger results@[j]] 0 <= j < results@.len() implies text::includes(
            out@,
            results@[j].snippet@,
        ) && text::includes(out@, title_or(results@[j].title)) by {
            law_found_sessions_are_described(results@[j]);
            lemma_in_list(head, all, j, results@[j].snippet@);
            lemma_in_list(head, all, j, title_or(results@[j].title));
        }
    }
    out
}

/// What the tool answers with the messages of a session. Each time must be one that can be cut
/// behind 19 bytes.
pub fn scroll_text(rows: &Vec<MessageRow>) -> (r: String)
    requires
        forall|i: int| #![trigger rows@[i]]
            0 <= i < rows@.len() ==> bytes::cuttable(rows@[i].timestamp@, 19),
    ensures
        r@ == if rows@.len() == 0 {
            "No messages found."@
        } else {
            text::joined(Seq::new(rows@.len(), |i: int| message_line(rows@[i])), "\n"@)
        },
{
    if rows.len() == 0 {
        return "No messages found.".to_owned();
    }
    let ghost all = Seq::new(rows@.len(), |i: int| message_line(rows@[i]));
    let mut lines: Vec<String> = Vec::new();
    let mut i: usize = 0;
    assert(text::texts(lines@) =~= all.take(0));
    while i < rows.len()
        invariant
            i <= rows@.len(),
            all == Seq::new(rows@.len(), |j: int| message_line(rows@[j])),
            forall|j: int| #![trigger rows@[j]]
                0 <= j < rows@.len() ==> bytes::cuttable(rows@[j].timestamp@, 19),
            text::texts(lines@) == all.take(i as int),
        decreases rows@.len() - i,
    {
        let ghost before = text::texts(lines@);
        let m: &MessageRow = &rows[i];
        let mut line: String = text::concat5(
            "[",
            m.role.as_str(),
            "] ",
            bytes::prefix(m.timestamp.as_str(), 19),
            ": ",
        );
        line.append(models::or_empty(&m.content));
        lines.push(line);
        proof {
            assert(text::texts(lines@) =~= before.push(all[i as int]));
            assert(all.take(i + 1) =~= before.push(all[i as int]));
        }
        i = i + 1;
    }
    assert(all.take(i as int) =~= all);
    text::join(&lines, "\n")
}

/// What the tool answers with the recent sessions. Each identifier must be one that can be cut
/// behind 8 bytes.
pub fn browse_text(sessions: &Vec<SessionSummary>) -> (r: String)
    requires
        forall|i: int| #![trigger sessions@[i]]
            0 <= i < sessions@.len() ==> bytes::cuttable(sessions@[i].id@, 8),
    ensures
        r@ == if sessions@.len() == 0 {
            "No sessions recorded yet."@
        } else {
            "Recent sessions:\n"@ + text::joined(
                Seq::new(sessions@.len(), |i: int| session_line(sessions@[i])),
                "\n"@,
            )
        },
        forall|i: int| #![trigger sessions@[i]]
            0 <= i < sessions@.len() ==> text::includes(r@, sessions@[i].started_at@)
                && text::includes(r@, title_or(sessions@[i].title)),
{
    if sessions.len() == 0 {
        return "No sessions recorded yet.".to_owned();
    }
    let ghost all = Seq::new(sessions@.len(), |i: int| session_line(sessions@[i]));
    let mut lines: Vec<String> = Vec::new();
    let mut i: usize = 0;
    assert(text::texts(lines@) =~= all.take(0));
    while i < sessions.len()
        invariant
            i <= sessions@.len(),
            all == Seq::new(sessions@.len(), |j: int| session_line(sessions@[j])),
            forall|j: int| #![trigger sessions@[j]]
                0 <= j < sessions@.len() ==> bytes::cuttable(sessions@[j].id@, 8),
            text::texts(lines@) == all.take(i as int),
        decreases sessions@.len() - i,
    {
        let ghost before = text::texts(lines@);
        let s: &SessionSummary = &sessions[i];
        let mut line: String = text::concat5(
            "- [",
            bytes::prefix(s.id.as_str(), 8),
            "] ",
            title_of(&s.title),
            " (",
        );
        line.append(number::show_signed(s.message_count).as_str());
        line.append(" msgs) — ");
        line.append(s.started_at.as_str());
        lines.push(line);
        proof {
            assert(text::texts(lines@) =~= before.push(all[i as int]));
            assert(all.take(i + 1) =~= before.push(all[i as int]));
        }
        i = i + 1;
    }
    assert(all.take(i as int) =~= all);
    let out: String = text::concat2("Recent sessions:\n", text::join(&lines, "\n").as_str());
    proof {
        let head = "Recent sessions:\n"@;
        assert forall|j: int| #![trigger sessions@[j]]
            0 <= j < sessions@.len() implies text::includes(out@, sessions@[j].started_at@)
            && text::includes(out@, title_or(sessions@[j].title)) by {
            law_sessions_are_described(sessions@[j]);
            lemma_in_list(head, all, j, sessions@[j].started_at@);
            lemma_in_list(head, all, j, title_or(sessions@[j].title));
        }
    }
    out
}

// ---------------------------------------------------------------------------
// Laws
// ---------------------------------------------------------------------------

/// A window never holds more messages than were asked for, whatever the database gives within
/// the limits that it is set.
pub proof fn law_window_is_bounded(
    window: int,
    before: Seq<MessageRow>,
    after: Seq<MessageRow>,
)
    requires
        0 <= window,
        before.len() <= up_to_middle(window),
        after.len() <= window - before.len(),
    ensures
        (before.reverse() + after).len() <= window,
{
}

/// A window that is not empty holds the message that it is centred on, as the last of those up to
/// it and directly before the others. `up_to` are all messages up to that one, newest first, of
/// which the database gives as many as it is asked for.
pub proof fn law_middle_of_window(
    window: int,
    up_to: Seq<MessageRow>,
    before: Seq<MessageRow>,
    after: Seq<MessageRow>,
)
    requires
        window >= 1,
        up_to.len() > 0,
        before == if up_to.len() <= up_to_middle(window) {
            up_to
        } else {
            up_to.take(up_to_middle(window))
        },
    ensures
        before.len() > 0,
        (before.reverse() + after)[before.len() - 1] == up_to[0],
        (before.reverse() + after).skip(before.len() as int) == after,
{
    assert((before.reverse() + after).skip(before.len() as int) =~= after);
}

/// The line for a session that was found tells the beginning of its identifier, its title, how many
/// messages it has, and at the end what was found in it.
pub proof fn law_found_sessions_are_described(r: SessionSearchResult)
    ensures
        text::begins(
            result_line(r),
            "- ["@ + bytes::byte_prefix(r.session_id@, 8) + "] "@,
        ),
        r.title matches Some(t) ==> text::stands_before(result_line(r), t@, r.snippet@),
        r.title is None ==> text::includes(result_line(r), "untitled"@),
        text::stands_before(
            result_line(r),
            number::signed_decimal(r.message_count as int),
            r.snippet@,
        ),
        text::finishes(result_line(r), r.snippet@),
        text::includes(result_line(r), title_or(r.title)),
        text::includes(result_line(r), r.snippet@),
{
    lemma_line_parts(
        "- ["@ + bytes::byte_prefix(r.session_id@, 8) + "] "@,
        title_or(r.title),
        " ("@,
        number::signed_decimal(r.message_count as int),
        " msgs): "@,
        r.snippet@,
    );
}

proof fn lemma_line_parts(
    start: Seq<char>,
    title: Seq<char>,
    b: Seq<char>,
    size: Seq<char>,
    c: Seq<char>,
    end: Seq<char>,
)
    ensures
        text::begins(start + title + b + size + c + end, start),
        text::includes(start + title + b + size + c + end, title),
        text::stands_before(start + title + b + size + c + end, title, end),
        text::stands_before(start + title + b + size + c + end, size, end),
        text::finishes(start + title + b + size + c + end, end),
        text::includes(start + title + b + size + c + end, end),
{
    let line = start + title + b + size + c + end;
    let none = Seq::<char>::empty();
    let n = start.len() as int;
    assert(line.subrange(0, n) =~= start);
    assert(line.subrange(n, n + title.len()) =~= title);
    assert(text::occurs_at(line, title, n));
    assert(line.subrange(line.len() - end.len(), line.len() as int) =~= end);
    assert(text::occurs_at(line, end, line.len() - end.len()));
    lemma_title_first(start, title, b, size, c, end);
    assert(line =~= (start + title + b) + size + c + end + none);
}

proof fn lemma_title_first(
    start: Seq<char>,
    title: Seq<char>,
    b: Seq<char>,
    size: Seq<char>,
    c: Seq<char>,
    end: Seq<char>,
)
    ensures
        text::stands_before(start + title + b + size + c + end, title, end),
{
    assert(start + title + b + size + c + end =~= start + title + (b + size + c) + end + Seq::<
        char,
    >::empty());
}

/// The line for a message tells who wrote it, the beginning of its time, and at the end its content.
pub proof fn law_messages_are_shown(m: MessageRow)
    ensures
        text::begins(
            message_line(m),
            "["@ + m.role@ + "] "@ + bytes::byte_prefix(m.timestamp@, 19) + ": "@,
        ),
        m.content matches Some(c) ==> message_line(m) == "["@ + m.role@ + "] "@ + bytes::byte_prefix(
            m.timestamp@,
            19,
        ) + ": "@ + c@,
{
    let start = "["@ + m.role@ + "] "@ + bytes::byte_prefix(m.timestamp@, 19) + ": "@;
    assert(message_line(m).subrange(0, start.len() as int) =~= start);
}

/// The line for a session tells the beginning of its identifier, its title, how many messages it
/// has, and at the end when it began.
pub proof fn law_sessions_are_described(s: SessionSummary)
    ensures
        text::begins(session_line(s), "- ["@ + bytes::byte_prefix(s.id@, 8) + "] "@),
        s.title matches Some(t) ==> text::stands_before(session_line(s), t@, s.started_at@),
        s.title is None ==> text::includes(session_line(s), "untitled"@),
        text::stands_before(
            session_line(s),
            number::signed_decimal(s.message_count as int),
            s.started_at@,
        ),
        text::finishes(session_line(s), s.started_at@),
        text::includes(session_line(s), title_or(s.title)),
        text::includes(session_line(s), s.started_at@),
{
    lemma_line_parts(
        "- ["@ + bytes::byte_prefix(s.id@, 8) + "] "@,
        title_or(s.title),
        " ("@,
        number::signed_decimal(s.message_count as int),
        " msgs) — "@,
        s.started_at@,
    );
}

/// Half of a window lies on either side of its middle, and what is odd lies behind it.
pub proof fn law_windows_are_balanced(window: int)
    requires
        0 <= window,
    ensures
        window != 1 ==> up_to_middle(window) <= window - up_to_middle(window) <= up_to_middle(
            window,
        ) + 1,
        0 < window ==> 0 < up_to_middle(window) <= window,
{
}

/// What the arguments say is what is searched for: the query, the session and its message, and the
/// limit, each as it is given.
pub proof fn law_searches_are_taken_at_their_word(args: JsonView)
    ensures
        ({
            let mode = json::text_member(args, "mode"@);
            let query = json::text_member(args, "query"@);
            let session = json::text_member(args, "session_id"@);
            let limit = json::unsigned_member(args, "limit"@);
            let id = json::member(args, "message_id"@);
            let r = searched(true, args);
            &&& searched(false, args) is Disabled
            &&& mode == Some("discover"@) && query is Some && limit is Some ==> r
                == SearchView::Discover(query->0, limit->0)
            &&& mode == Some("discover"@) && query is Some && limit is None ==> r
                == SearchView::Discover(query->0, 5u64)
            &&& mode == Some("scroll"@) && session is Some && id is Some && limit is Some ==> r
                == SearchView::Scroll(session->0, json::signed_of(id->0), limit->0)
            &&& mode == Some("scroll"@) && session is Some && id is None && limit is None ==> r
                == SearchView::Scroll(session->0, None, 10u64)
            &&& (mode is None || mode == Some("browse"@)) && limit is Some ==> r
                == SearchView::Browse(limit->0)
            &&& (mode is None || mode == Some("browse"@)) && limit is None ==> r
                == SearchView::Browse(10u64)
            &&& mode is Some && mode != Some("discover"@) && mode != Some("scroll"@) && mode
                != Some("browse"@) ==> r is UnknownMode
        }),
{
    reveal_strlit("discover");
    reveal_strlit("scroll");
    reveal_strlit("browse");
    assert("discover"@[0] == 'd' && "scroll"@[0] == 's' && "browse"@[0] == 'b');
}

/// The result that stands for a session tells all that is known of it.
pub proof fn law_results_stand_for_sessions(r: SessionSearchResult, s: SessionSummary)
    requires
        stands_for(r, s),
    ensures
        r.session_id@ == s.id@,
        r.title == s.title,
        r.started_at@ == s.started_at@,
        r.message_count == s.message_count,
        r.snippet@.len() == 0,
{
}

proof fn lemma_in_list(head: Seq<char>, lines: Seq<Seq<char>>, i: int, x: Seq<char>)
    requires
        0 <= i < lines.len(),
        text::includes(lines[i], x),
    ensures
        text::includes(head + text::joined(lines, "\n"@), x),
{
    let list = text::joined(lines, "\n"@);
    let none = Seq::<char>::empty();
    text::law_joined_holds_every_part(lines, "\n"@, i);
    text::law_includes_is_transitive(list, lines[i], x);
    text::lemma_includes_within(head, list, none, x);
    assert(head + list + none =~= head + list);
}

} // verus!
