//! The Model Context Protocol: how servers are reached, what they are sent, and what is made of
//! their answers.

use crate::bytes;
use crate::json;
use crate::json::{Json, JsonView};
use crate::models;
use crate::models::{McpServerConfig, ToolSchema};
use crate::number;
use crate::text;
use crate::unicode;
use vstd::prelude::*;

verus! {

// ---------------------------------------------------------------------------
// Names
// ---------------------------------------------------------------------------

/// The text with every character replaced by an underscore that is neither a letter, a number
/// nor an underscore.
pub open spec fn masked(s: Seq<char>) -> Seq<char> {
    Seq::new(
        s.len(),
        |i: int|
            if unicode::alphanumeric(s[i]) || s[i] == '_' {
                s[i]
            } else {
                '_'
            },
    )
}

/// The name as it goes into the name of a tool.
pub open spec fn sanitized(name: Seq<char>) -> Seq<char> {
    text::replaced_all(masked(unicode::lowercase(name)), ".."@, "_"@)
}

/// The name under which the tool of a server is registered.
pub open spec fn prefixed(server: Seq<char>, tool: Seq<char>) -> Seq<char> {
    "mcp_"@ + sanitized(server) + "_"@ + sanitized(tool)
}

fn mask(s: &str) -> (r: String)
    ensures
        r@ == masked(s@),
{
    let chars: Vec<char> = text::chars_of(s);
    let mut out: String = String::new();
    let mut i: usize = 0;
    assert(out@ =~= masked(s@).take(0));
    while i < chars.len()
        invariant
            i <= chars@.len(),
            chars@ == s@,
            out@ == masked(s@).take(i as int),
        decreases chars@.len() - i,
    {
        let c: char = chars[i];
        let ghost before = out@;
        if unicode::is_alphanumeric(c) || c == '_' {
            out.append(s.substring_char(i, i + 1));
            assert(out@ =~= before.push(c));
        } else {
            out.append("_");
            proof {
                reveal_strlit("_");
                assert(out@ =~= before.push('_'));
            }
        }
        assert(masked(s@).take(i + 1) =~= before.push(masked(s@)[i as int]));
        i = i + 1;
    }
    assert(masked(s@).take(i as int) =~= masked(s@));
    out
}

/// The name as it goes into the name of a tool.
pub fn sanitize_name(name: &str) -> (r: String)
    ensures
        r@ == sanitized(name@),
{
    let lower: String = unicode::to_lower(name);
    let plain: String = mask(lower.as_str());
    proof {
        reveal_strlit("..");
    }
    text::replace_all(plain.as_str(), "..", "_")
}

/// The name under which the tool of a server is registered.
pub fn prefixed_name(server: &str, tool: &str) -> (r: String)
    ensures
        r@ == prefixed(server@, tool@),
{
    text::concat4("mcp_", sanitize_name(server).as_str(), "_", sanitize_name(tool).as_str())
}

// ---------------------------------------------------------------------------
// Servers
// ---------------------------------------------------------------------------

/// How a server is reached.
#[derive(Debug, Clone)]
pub enum McpTransport {
    Stdio,
    Http {
        base_url: String,
        headers: Vec<(String, String)>,
        streamable: bool,
        session_id: Option<String>,
    },
}

/// A server that is connected.
#[derive(Debug, Clone)]
pub struct McpServer {
    pub name: String,
    pub transport: McpTransport,
    pub request_id: u64,
    pub timeout_secs: u64,
}

/// How a server with a configuration is to be connected.
#[derive(Debug)]
pub enum ConnectPlan {
    /// It is connected already.
    Connected,
    /// By a process of its own.
    Stdio { command: String, args: Vec<String> },
    /// Over HTTP.
    Http { url: String, headers: Vec<(String, String)>, streamable: bool },
    /// Not at all: neither a command nor an address is known.
    Nothing,
}

/// The texts of a list of pairs.
pub open spec fn pair_list(v: Seq<(String, String)>) -> Seq<(Seq<char>, Seq<char>)> {
    Seq::new(v.len(), |i: int| (v[i].0@, v[i].1@))
}

/// The key, in small letters, looks like that of an HTTP header with credentials.
pub open spec fn like_header(lower: Seq<char>) -> bool {
    text::begins(lower, "authorization"@) || text::begins(lower, "x-"@)
}

/// The variables that look like HTTP headers, in order.
pub open spec fn header_like(env: Seq<(Seq<char>, Seq<char>)>) -> Seq<(Seq<char>, Seq<char>)>
    decreases env.len(),
{
    if env.len() == 0 {
        Seq::empty()
    } else {
        let rest = header_like(env.drop_last());
        if like_header(unicode::lowercase(env.last().0)) {
            rest.push(env.last())
        } else {
            rest
        }
    }
}

/// The headers for a server: those that are configured, or else the variables that look like
/// headers.
pub open spec fn chosen_headers(
    headers: Seq<(Seq<char>, Seq<char>)>,
    env: Seq<(Seq<char>, Seq<char>)>,
) -> Seq<(Seq<char>, Seq<char>)> {
    if headers.len() > 0 {
        headers
    } else {
        header_like(env)
    }
}

/// Whether a key in small letters looks like that of an HTTP header with credentials.
pub fn looks_like_header(lower: &str) -> (r: bool)
    ensures
        r == like_header(lower@),
{
    text::starts_with(lower, "authorization") || text::starts_with(lower, "x-")
}

fn copy_pairs(v: &Vec<(String, String)>) -> (r: Vec<(String, String)>)
    ensures
        pair_list(r@) == pair_list(v@),
{
    let mut out: Vec<(String, String)> = Vec::new();
    let mut i: usize = 0;
    assert(pair_list(out@) =~= pair_list(v@).take(0));
    while i < v.len()
        invariant
            i <= v@.len(),
            pair_list(out@) == pair_list(v@).take(i as int),
        decreases v@.len() - i,
    {
        let ghost before = pair_list(out@);
        out.push((v[i].0.clone(), v[i].1.clone()));
        proof {
            assert(pair_list(out@) =~= before.push(pair_list(v@)[i as int]));
            assert(pair_list(v@).take(i + 1) =~= before.push(pair_list(v@)[i as int]));
        }
        i = i + 1;
    }
    assert(pair_list(v@).take(i as int) =~= pair_list(v@));
    out
}

fn copy_texts(v: &Vec<String>) -> (r: Vec<String>)
    ensures
        text::texts(r@) == text::texts(v@),
{
    let mut out: Vec<String> = Vec::new();
    let mut i: usize = 0;
    assert(text::texts(out@) =~= text::texts(v@).take(0));
    while i < v.len()
        invariant
            i <= v@.len(),
            text::texts(out@) == text::texts(v@).take(i as int),
        decreases v@.len() - i,
    {
        let ghost before = text::texts(out@);
        out.push(v[i].clone());
        proof {
            assert(text::texts(out@) =~= before.push(text::texts(v@)[i as int]));
            assert(text::texts(v@).take(i + 1) =~= before.push(text::texts(v@)[i as int]));
        }
        i = i + 1;
    }
    assert(text::texts(v@).take(i as int) =~= text::texts(v@));
    out
}

/// The headers for a server.
pub fn headers_for(headers: &Vec<(String, String)>, env: &Vec<(String, String)>) -> (r: Vec<
    (String, String),
>)
    ensures
        pair_list(r@) == chosen_headers(pair_list(headers@), pair_list(env@)),
{
    if headers.len() > 0 {
        return copy_pairs(headers);
    }
    let ghost all = pair_list(env@);
    let mut out: Vec<(String, String)> = Vec::new();
    let mut i: usize = 0;
    assert(all.take(0) =~= Seq::<(Seq<char>, Seq<char>)>::empty());
    assert(pair_list(out@) =~= Seq::<(Seq<char>, Seq<char>)>::empty());
    while i < env.len()
        invariant
            i <= env@.len(),
            all == pair_list(env@),
            pair_list(out@) == header_like(all.take(i as int)),
        decreases env@.len() - i,
    {
        let ghost before = pair_list(out@);
        proof {
            assert(all.take(i + 1).drop_last() =~= all.take(i as int));
            assert(all.take(i + 1).last() == all[i as int]);
        }
        if looks_like_header(unicode::to_lower(env[i].0.as_str()).as_str()) {
            out.push((env[i].0.clone(), env[i].1.clone()));
            assert(pair_list(out@) =~= before.push(all[i as int]));
        }
        i = i + 1;
    }
    assert(all.take(i as int) =~= all);
    out
}

/// How a server is to be connected: by its command if it has one, else over HTTP.
pub fn plan_connection(config: &McpServerConfig, connected: bool) -> (r: ConnectPlan)
    ensures
        if connected {
            r is Connected
        } else {
            match (config.command, config.url) {
                (Some(c), _) => r matches ConnectPlan::Stdio { command, args } && command@ == c@
                    && text::texts(args@) == match config.args {
                    Some(a) => text::texts(a@),
                    None => Seq::empty(),
                },
                (None, Some(u)) => r matches ConnectPlan::Http { url, headers, streamable } && url@
                    == u@ && pair_list(headers@) == chosen_headers(
                    pair_list(config.headers@),
                    pair_list(config.env@),
                ) && streamable == text::same_ignoring_case(
                    config.transport_type@,
                    "streamable-http"@,
                ),
                (None, None) => r is Nothing,
            }
        },
{
    if connected {
        return ConnectPlan::Connected;
    }
    match &config.command {
        Some(c) => {
            let args: Vec<String> = match &config.args {
                Some(a) => copy_texts(a),
                None => {
                    let none: Vec<String> = Vec::new();
                    assert(text::texts(none@) =~= Seq::empty());
                    none
                },
            };
            ConnectPlan::Stdio { command: c.clone(), args }
        },
        None => match &config.url {
            Some(u) => ConnectPlan::Http {
                url: u.clone(),
                headers: headers_for(&config.headers, &config.env),
                streamable: config.is_streamable_http(),
            },
            None => ConnectPlan::Nothing,
        },
    }
}

/// The variable is handed on to the process of a server.
pub open spec fn safe_variable(key: Seq<char>) -> bool {
    ||| key == "PATH"@
    ||| key == "HOME"@
    ||| key == "USER"@
    ||| key == "LANG"@
    ||| key == "LC_ALL"@
    ||| key == "TERM"@
    ||| key == "SHELL"@
    ||| key == "TMPDIR"@
    ||| text::begins(key, "XDG_"@)
}

/// Whether a variable of the environment is handed on to the process of a server.
pub fn is_safe_variable(key: &str) -> (r: bool)
    ensures
        r == safe_variable(key@),
{
    text::same(key, "PATH") || text::same(key, "HOME") || text::same(key, "USER") || text::same(
        key,
        "LANG",
    ) || text::same(key, "LC_ALL") || text::same(key, "TERM") || text::same(key, "SHELL")
        || text::same(key, "TMPDIR") || text::starts_with(key, "XDG_")
}

// ---------------------------------------------------------------------------
// Requests
// ---------------------------------------------------------------------------

/// The text of a request.
pub open spec fn request_body(id: u64, method: Seq<char>, params: Option<JsonView>) -> Seq<char> {
    let start = "{\"jsonrpc\":\"2.0\",\"id\":"@ + number::decimal(id as nat) + ",\"method\":"@
        + json::rendered(JsonView::Text(method));
    match params {
        Some(p) => start + ",\"params\":"@ + json::rendered(p) + "}"@,
        None => start + "}"@,
    }
}

/// The text of a request.
pub fn request_text(id: u64, method: &str, params: &Option<Json>) -> (r: String)
    ensures
        r@ == request_body(id, method@, json::opt_model(*params)),
{
    let quoted: String = json::render(&Json::Text(method.to_owned()));
    let mut out: String = text::concat4(
        "{\"jsonrpc\":\"2.0\",\"id\":",
        number::show(id).as_str(),
        ",\"method\":",
        quoted.as_str(),
    );
    match params {
        Some(p) => {
            out.append(",\"params\":");
            out.append(json::render(p).as_str());
        },
        None => {},
    }
    out.append("}");
    out
}

/// What the agent says of itself when it connects.
pub open spec fn initialize_view() -> JsonView {
    JsonView::Object(
        seq![
            json::text_field("protocolVersion"@, "2024-11-05"@),
            ("capabilities"@, JsonView::Object(Seq::empty())),
            (
                "clientInfo"@,
                JsonView::Object(
                    seq![
                        json::text_field("name"@, "mini-agent"@),
                        json::text_field("version"@, "0.1.0"@),
                    ],
                ),
            ),
        ],
    )
}

/// What the agent says of itself when it connects.
pub fn initialize_params() -> (r: Json)
    ensures
        r@ == initialize_view(),
{
    let mut client: Vec<(String, Json)> = Vec::new();
    client.push(json::text_entry("name", "mini-agent"));
    client.push(json::text_entry("version", "0.1.0"));
    let info: Json = Json::Object(client);
    proof {
        assert(info@->Object_0 =~= seq![
            json::text_field("name"@, "mini-agent"@),
            json::text_field("version"@, "0.1.0"@),
        ]);
    }
    let none: Json = Json::Object(Vec::new());
    proof {
        assert(none@->Object_0 =~= Seq::empty());
    }
    let mut all: Vec<(String, Json)> = Vec::new();
    all.push(json::text_entry("protocolVersion", "2024-11-05"));
    all.push(("capabilities".to_owned(), none));
    all.push(("clientInfo".to_owned(), info));
    let r: Json = Json::Object(all);
    proof {
        assert(r@->Object_0 =~= initialize_view()->Object_0);
    }
    r
}

/// What is sent along with the call of a tool.
pub fn call_params(tool_name: &str, arguments: Json) -> (r: Json)
    ensures
        r@ == JsonView::Object(
            seq![json::text_field("name"@, tool_name@), ("arguments"@, arguments@)],
        ),
{
    let ghost view = arguments@;
    let mut all: Vec<(String, Json)> = Vec::new();
    all.push(json::text_entry("name", tool_name));
    all.push(("arguments".to_owned(), arguments));
    let r: Json = Json::Object(all);
    proof {
        assert(r@->Object_0 =~= seq![json::text_field("name"@, tool_name@), ("arguments"@, view)]);
    }
    r
}

/// The address that messages to a server go to.
pub open spec fn message_url(base_url: Seq<char>, streamable: bool) -> Seq<char> {
    let base = text::without_trailing(base_url, '/');
    if streamable {
        base
    } else {
        base + "/message"@
    }
}

/// The address that messages to a server go to.
pub fn http_url(base_url: &str, streamable: bool) -> (r: String)
    ensures
        r@ == message_url(base_url@, streamable),
{
    let base: &str = text::strip_trailing(base_url, '/');
    if streamable {
        base.to_owned()
    } else {
        text::concat2(base, "/message")
    }
}

/// The headers of a message, apart from the kind of its body.
pub open spec fn message_headers(
    streamable: bool,
    session_id: Option<Seq<char>>,
    headers: Seq<(Seq<char>, Seq<char>)>,
) -> Seq<(Seq<char>, Seq<char>)> {
    let first = if streamable {
        seq![("Accept"@, "application/json, text/event-stream"@)]
    } else {
        Seq::empty()
    };
    let second = match session_id {
        Some(id) => first.push(("Mcp-Session-Id"@, id)),
        None => first,
    };
    second + headers
}

/// The headers of a message, apart from the kind of its body.
pub fn http_headers(
    streamable: bool,
    session_id: &Option<String>,
    headers: &Vec<(String, String)>,
) -> (r: Vec<(String, String)>)
    ensures
        pair_list(r@) == message_headers(
            streamable,
            models::opt_text(*session_id),
            pair_list(headers@),
        ),
{
    let mut out: Vec<(String, String)> = Vec::new();
    if streamable {
        out.push(("Accept".to_owned(), "application/json, text/event-stream".to_owned()));
    }
    let ghost first = pair_list(out@);
    assert(first =~= if streamable {
        seq![("Accept"@, "application/json, text/event-stream"@)]
    } else {
        Seq::empty()
    });
    match session_id {
        Some(id) => {
            out.push(("Mcp-Session-Id".to_owned(), id.clone()));
            assert(pair_list(out@) =~= first.push(("Mcp-Session-Id"@, id@)));
        },
        None => {},
    }
    let ghost base = out@;
    let mut rest: Vec<(String, String)> = copy_pairs(headers);
    let ghost tail = rest@;
    out.append(&mut rest);
    assert(pair_list(out@) =~= pair_list(base) + pair_list(tail));
    out
}

impl McpServer {
    /// A server that has just been connected.
    pub fn new(name: &str, transport: McpTransport, timeout_secs: u64) -> (r: Self)
        ensures
            r.name@ == name@,
            r.transport == transport,
            r.request_id == 1,
            r.timeout_secs == timeout_secs,
    {
        McpServer { name: name.to_owned(), transport, request_id: 1, timeout_secs }
    }

    /// The number of the next request. They count up, and after the largest begin at 0.
    pub fn next_id(&mut self) -> (r: u64)
        ensures
            r == old(self).request_id,
            final(self).request_id == if old(self).request_id == u64::MAX {
                0
            } else {
                old(self).request_id + 1
            },
            final(self).name == old(self).name,
            final(self).transport == old(self).transport,
            final(self).timeout_secs == old(self).timeout_secs,
    {
        let id: u64 = self.request_id;
        self.request_id = if id == u64::MAX {
            0
        } else {
            id + 1
        };
        id
    }

    /// Keeps the session that a server gave with its answer; without one the old stays.
    pub fn set_session(&mut self, given: Option<String>)
        ensures
            final(self).name == old(self).name,
            final(self).request_id == old(self).request_id,
            final(self).timeout_secs == old(self).timeout_secs,
            match old(self).transport {
                McpTransport::Stdio => final(self).transport is Stdio,
                McpTransport::Http { base_url, headers, streamable, session_id } =>
                    final(self).transport == (McpTransport::Http {
                    base_url,
                    headers,
                    streamable,
                    session_id: match given {
                        Some(id) => Some(id),
                        None => session_id,
                    },
                }),
            },
    {
        match &mut self.transport {
            McpTransport::Stdio => {},
            McpTransport::Http { session_id, .. } => {
                match given {
                    Some(id) => {
                        *session_id = Some(id);
                    },
                    None => {},
                }
            },
        }
    }
}

// ---------------------------------------------------------------------------
// Answers
// ---------------------------------------------------------------------------

/// An error that a server answers with.
#[derive(Debug)]
pub struct RpcError {
    pub code: i32,
    pub message: String,
}

/// An answer of a server.
#[derive(Debug)]
pub struct RpcResponse {
    pub id: Option<u64>,
    pub result: Option<Json>,
    pub error: Option<RpcError>,
}

/// What comes of a request: its result, or the text of an error.
pub enum Outcome {
    Done(JsonView),
    Failed(Seq<char>),
}

/// What a result comes to.
pub open spec fn outcome_of(r: Result<Json, String>) -> Outcome {
    match r {
        Ok(j) => Outcome::Done(j@),
        Err(e) => Outcome::Failed(e@),
    }
}

/// What an answer comes to: the error in it if there is one, else the result, or null.
pub open spec fn settled(response: RpcResponse) -> Outcome {
    match response.error {
        Some(e) => Outcome::Failed(
            "MCP error "@ + number::signed_decimal(e.code as int) + ": "@ + e.message@,
        ),
        None => Outcome::Done(
            match response.result {
                Some(j) => j@,
                None => JsonView::Null,
            },
        ),
    }
}

/// What an answer comes to.
pub fn settle(response: RpcResponse) -> (r: Result<Json, String>)
    ensures
        outcome_of(r) == settled(response),
{
    match response.error {
        Some(e) => Err(
            text::concat4(
                "MCP error ",
                number::show_signed(e.code as i64).as_str(),
                ": ",
                e.message.as_str(),
            ),
        ),
        None => match response.result {
            Some(j) => Ok(j),
            None => Ok(Json::Null),
        },
    }
}

/// What was read from the process of a server.
#[derive(Debug)]
pub enum StdioEvent {
    /// The time for the request is over.
    Deadline,
    /// The process has closed its output.
    Closed,
    /// Nothing is there yet.
    Blocked,
    /// Reading failed.
    Failed(String),
    /// A line with nothing in it.
    Blank,
    /// A line that is no answer.
    Unreadable(String),
    /// An answer.
    Response(RpcResponse),
}

/// What to do next about a request to the process of a server.
#[derive(Debug)]
pub enum StdioStep {
    /// Read another line.
    ReadOn,
    /// Wait a moment, then go on with the same line.
    Wait,
    /// The request is over.
    Finish(Result<Json, String>),
}

/// The line without white space around it; none where nothing is left.
pub fn line_payload(line: &str) -> (r: Option<String>)
    ensures
        models::opt_text(r) == if text::trimmed(line@).len() > 0 {
            Some(text::trimmed(line@))
        } else {
            None
        },
{
    let t: &str = text::trim(line);
    if t.unicode_len() > 0 {
        Some(t.to_owned())
    } else {
        None
    }
}

/// What to do next about the request with that number. Answers to other requests are passed
/// over.
pub fn stdio_step(id: u64, event: StdioEvent) -> (r: StdioStep)
    ensures
        match event {
            StdioEvent::Deadline => r matches StdioStep::Finish(o) && outcome_of(o)
                == Outcome::Failed("MCP request timeout"@),
            StdioEvent::Closed => r matches StdioStep::Finish(o) && outcome_of(o)
                == Outcome::Failed("MCP server closed connection"@),
            StdioEvent::Blocked => r is Wait,
            StdioEvent::Failed(e) => r matches StdioStep::Finish(o) && outcome_of(o)
                == Outcome::Failed(e@),
            StdioEvent::Blank => r is ReadOn,
            StdioEvent::Unreadable(line) => r matches StdioStep::Finish(o) && outcome_of(o)
                == Outcome::Failed("Invalid JSON-RPC response: "@ + line@),
            StdioEvent::Response(response) => if response.id == Some(id) {
                r matches StdioStep::Finish(o) && outcome_of(o) == settled(response)
            } else {
                r is ReadOn
            },
        },
{
    match event {
        StdioEvent::Deadline => StdioStep::Finish(Err("MCP request timeout".to_owned())),
        StdioEvent::Closed => StdioStep::Finish(Err("MCP server closed connection".to_owned())),
        StdioEvent::Blocked => StdioStep::Wait,
        StdioEvent::Failed(e) => StdioStep::Finish(Err(e)),
        StdioEvent::Blank => StdioStep::ReadOn,
        StdioEvent::Unreadable(line) => StdioStep::Finish(
            Err(text::concat2("Invalid JSON-RPC response: ", line.as_str())),
        ),
        StdioEvent::Response(response) => {
            let ours: bool = match response.id {
                Some(n) => n == id,
                None => false,
            };
            if ours {
                StdioStep::Finish(settle(response))
            } else {
                StdioStep::ReadOn
            }
        },
    }
}

/// The data in the first line of an event stream that has any; none where no line has.
pub open spec fn first_data(lines: Seq<Seq<char>>) -> Option<Seq<char>>
    decreases lines.len(),
{
    if lines.len() == 0 {
        None
    } else {
        let t = text::trimmed(lines.first());
        if text::begins(t, "data:"@) {
            Some(text::trimmed(t.skip(5)))
        } else {
            first_data(lines.drop_first())
        }
    }
}

/// The JSON text in an event stream.
pub fn parse_sse_json(stream: &str) -> (r: Result<String, String>)
    ensures
        match (r, first_data(text::line_seq(stream@))) {
            (Ok(data), Some(d)) => data@ == d,
            (Err(e), None) => e@ == "No data line found in SSE response"@,
            _ => false,
        },
{
    let lines: Vec<String> = text::lines(stream);
    let ghost all = text::texts(lines@);
    let mut i: usize = 0;
    assert(all.skip(0) =~= all);
    while i < lines.len()
        invariant
            i <= lines@.len(),
            all == text::texts(lines@),
            all == text::line_seq(stream@),
            first_data(all) == first_data(all.skip(i as int)),
        decreases lines@.len() - i,
    {
        proof {
            assert(all.skip(i as int).first() == lines@[i as int]@);
            assert(all.skip(i as int).drop_first() =~= all.skip(i + 1));
        }
        let t: &str = text::trim(lines[i].as_str());
        if text::starts_with(t, "data:") {
            proof {
                reveal_strlit("data:");
            }
            return Ok(text::trim(text::rest_from(t, 5)).to_owned());
        }
        i = i + 1;
    }
    Err("No data line found in SSE response".to_owned())
}

/// The JSON text in the body of an answer over HTTP: a body that speaks of events is an event
/// stream, any other is the text itself. An answer with a bad status is an error.
pub fn http_answer(success: bool, status: &str, body: &str) -> (r: Result<String, String>)
    ensures
        if !success {
            r matches Err(e) && e@ == "MCP HTTP "@ + status@ + ": "@ + body@
        } else if text::includes(body@, "event:"@) {
            match (r, first_data(text::line_seq(body@))) {
                (Ok(data), Some(d)) => data@ == d,
                (Err(e), None) => e@ == "No data line found in SSE response"@,
                _ => false,
            }
        } else {
            r matches Ok(data) && data@ == body@
        },
{
    if !success {
        Err(text::concat4("MCP HTTP ", status, ": ", body))
    } else if text::contains(body, "event:") {
        parse_sse_json(body)
    } else {
        Ok(body.to_owned())
    }
}

/// How many bytes of a text an error shows.
pub open spec fn shown_bytes(s: Seq<char>) -> int {
    if bytes::byte_len(s) < 200 {
        bytes::byte_len(s) as int
    } else {
        200
    }
}

/// The error that an answer over HTTP is no JSON; none where its first 200 bytes end within a
/// character.
pub fn unreadable_answer(json_text: &str) -> (r: Option<String>)
    ensures
        match r {
            Some(e) => bytes::cuttable(json_text@, shown_bytes(json_text@)) && e@
                == "Failed to parse JSON-RPC response: "@ + bytes::byte_prefix(
                json_text@,
                shown_bytes(json_text@),
            ),
            None => !bytes::cuttable(json_text@, shown_bytes(json_text@)),
        },
{
    let n: usize = bytes::len(json_text);
    let shown: usize = if n < 200 {
        n
    } else {
        200
    };
    if bytes::can_cut(json_text, shown) {
        Some(
            text::concat2("Failed to parse JSON-RPC response: ", bytes::prefix(json_text, shown)),
        )
    } else {
        None
    }
}

// ---------------------------------------------------------------------------
// Tools
// ---------------------------------------------------------------------------

/// A tool that a server offers.
#[derive(Debug)]
pub struct McpTool {
    pub name: String,
    pub description: String,
    pub input_schema: Json,
}

/// A part of what a tool gives.
#[derive(Debug)]
pub struct ToolContent {
    pub content_type: String,
    pub text: Option<String>,
}

/// The texts among the parts, in order.
pub open spec fn texts_in(contents: Seq<ToolContent>) -> Seq<Seq<char>>
    decreases contents.len(),
{
    if contents.len() == 0 {
        Seq::empty()
    } else {
        let rest = texts_in(contents.drop_last());
        match contents.last().text {
            Some(t) => if contents.last().content_type@ == "text"@ {
                rest.push(t@)
            } else {
                rest
            },
            None => rest,
        }
    }
}

/// The texts among the parts, in lines.
pub open spec fn output_of(contents: Seq<ToolContent>) -> Seq<char> {
    if texts_in(contents).len() == 0 {
        "(empty result)"@
    } else {
        text::joined(texts_in(contents), "\n"@)
    }
}

/// What the call of a tool gives.
pub fn tool_result(contents: &Vec<ToolContent>, is_error: bool) -> (r: Result<String, String>)
    ensures
        match r {
            Ok(t) => !is_error && t@ == output_of(contents@),
            Err(e) => is_error && e@ == "Tool error: "@ + output_of(contents@),
        },
{
    let mut found: Vec<String> = Vec::new();
    let mut i: usize = 0;
    assert(contents@.take(0) =~= Seq::<ToolContent>::empty());
    assert(text::texts(found@) =~= Seq::<Seq<char>>::empty());
    while i < contents.len()
        invariant
            i <= contents@.len(),
            text::texts(found@) == texts_in(contents@.take(i as int)),
        decreases contents@.len() - i,
    {
        let ghost before = text::texts(found@);
        proof {
            assert(contents@.take(i + 1).drop_last() =~= contents@.take(i as int));
            assert(contents@.take(i + 1).last() == contents@[i as int]);
        }
        if text::same(contents[i].content_type.as_str(), "text") {
            match &contents[i].text {
                Some(t) => {
                    found.push(t.clone());
                    assert(text::texts(found@) =~= before.push(t@));
                },
                None => {},
            }
        }
        i = i + 1;
    }
    assert(contents@.take(i as int) =~= contents@);
    let output: String = if found.len() == 0 {
        "(empty result)".to_owned()
    } else {
        text::join(&found, "\n")
    };
    if is_error {
        Err(text::concat2("Tool error: ", output.as_str()))
    } else {
        Ok(output)
    }
}

/// The text that the model gets to see of the call of a tool: its result, or the error in JSON.
pub fn answer_text(result: Result<String, String>) -> (r: String)
    ensures
        r@ == match result {
            Ok(t) => t@,
            Err(e) => "{\"error\": \""@ + e@ + "\"}"@,
        },
{
    match result {
        Ok(t) => t,
        Err(e) => text::concat3("{\"error\": \"", e.as_str(), "\"}"),
    }
}

/// The position of the first member with the key; the length where there is none.
pub open spec fn member_position(ms: Seq<(Seq<char>, JsonView)>, key: Seq<char>, from: int) -> int
    decreases ms.len() - from,
{
    if from < 0 || from >= ms.len() {
        ms.len() as int
    } else if ms[from].0 == key {
        from
    } else {
        member_position(ms, key, from + 1)
    }
}

/// There is a member with the key.
pub open spec fn has_member(ms: Seq<(Seq<char>, JsonView)>, key: Seq<char>) -> bool {
    member_position(ms, key, 0) < ms.len()
}

/// The members with one that has the key, unless there is one already.
pub open spec fn with_default(
    ms: Seq<(Seq<char>, JsonView)>,
    key: Seq<char>,
    value: JsonView,
) -> Seq<(Seq<char>, JsonView)> {
    if has_member(ms, key) {
        ms
    } else {
        ms.push((key, value))
    }
}

/// The members with the key set to a value.
pub open spec fn with_member(
    ms: Seq<(Seq<char>, JsonView)>,
    key: Seq<char>,
    value: JsonView,
) -> Seq<(Seq<char>, JsonView)> {
    if has_member(ms, key) {
        ms.update(member_position(ms, key, 0), (key, value))
    } else {
        ms.push((key, value))
    }
}

/// The members with `$defs` renamed to `definitions`.
pub open spec fn with_definitions(ms: Seq<(Seq<char>, JsonView)>) -> Seq<(Seq<char>, JsonView)> {
    if has_member(ms, "$defs"@) {
        let k = member_position(ms, "$defs"@, 0);
        with_member(ms.remove(k), "definitions"@, ms[k].1)
    } else {
        ms
    }
}

/// The schema as models expect it: an object that says so, has properties, and keeps its
/// definitions under the usual name.
pub open spec fn normalized(schema: JsonView) -> JsonView {
    match schema {
        JsonView::Object(ms) => JsonView::Object(
            with_definitions(
                with_default(
                    with_default(ms, "type"@, JsonView::Text("object"@)),
                    "properties"@,
                    JsonView::Object(Seq::empty()),
                ),
            ),
        ),
        other => other,
    }
}

fn find_member(v: &Vec<(String, Json)>, key: &str) -> (r: usize)
    ensures
        r == member_position(json::members(v@), key@, 0),
        r <= v@.len(),
{
    let ghost ms = json::members(v@);
    let mut i: usize = 0;
    while i < v.len()
        invariant
            i <= v@.len(),
            ms == json::members(v@),
            member_position(ms, key@, 0) == member_position(ms, key@, i as int),
        decreases v@.len() - i,
    {
        if text::same(v[i].0.as_str(), key) {
            return i;
        }
        i = i + 1;
    }
    i
}

fn set_default(v: &mut Vec<(String, Json)>, key: &str, value: Json)
    ensures
        json::members(final(v)@) == with_default(json::members(old(v)@), key@, value@),
{
    let ghost ms = json::members(v@);
    let i: usize = find_member(v, key);
    if i >= v.len() {
        let ghost view = value@;
        v.push((key.to_owned(), value));
        assert(json::members(v@) =~= ms.push((key@, view)));
    }
}

fn set_member(v: &mut Vec<(String, Json)>, key: &str, value: Json)
    ensures
        json::members(final(v)@) == with_member(json::members(old(v)@), key@, value@),
{
    let ghost ms = json::members(v@);
    let ghost view = value@;
    let i: usize = find_member(v, key);
    if i < v.len() {
        v.set(i, (key.to_owned(), value));
        assert(json::members(v@) =~= ms.update(i as int, (key@, view)));
    } else {
        v.push((key.to_owned(), value));
        assert(json::members(v@) =~= ms.push((key@, view)));
    }
}

/// The schema as models expect it.
pub fn normalize_schema(schema: Json) -> (r: Json)
    ensures
        r@ == normalized(schema@),
{
    match schema {
        Json::Object(v) => {
            let ghost start = json::members(v@);
            assert(start =~= schema@->Object_0);
            let mut all: Vec<(String, Json)> = v;
            set_default(&mut all, "type", Json::Text("object".to_owned()));
            let none: Json = Json::Object(Vec::new());
            assert(none@->Object_0 =~= Seq::empty());
            set_default(&mut all, "properties", none);
            let ghost ms = json::members(all@);
            let i: usize = find_member(&all, "$defs");
            if i < all.len() {
                let defs: (String, Json) = all.remove(i);
                assert(json::members(all@) =~= ms.remove(i as int));
                set_member(&mut all, "definitions", defs.1);
            }
            let r: Json = Json::Object(all);
            assert(r@->Object_0 =~= json::members(all@));
            r
        },
        other => other,
    }
}

/// The schema under which the tool of a server is registered.
pub fn tool_schema(server_name: &str, tool: McpTool) -> (r: ToolSchema)
    ensures
        r.name@ == prefixed(server_name@, tool.name@),
        r.description@ == "[MCP:"@ + server_name@ + "] "@ + tool.description@,
        r.parameters@ == normalized(tool.input_schema@),
{
    let name: String = prefixed_name(server_name, tool.name.as_str());
    let description: String = text::concat4(
        "[MCP:",
        server_name,
        "] ",
        tool.description.as_str(),
    );
    let parameters: Json = normalize_schema(tool.input_schema);
    ToolSchema { name, description, parameters }
}

/// The names under which the tools of a server are registered.
pub fn prefixed_names(server_name: &str, tools: &Vec<McpTool>) -> (r: Vec<String>)
    ensures
        text::texts(r@) == Seq::new(
            tools@.len(),
            |i: int| prefixed(server_name@, tools@[i].name@),
        ),
{
    let ghost all = Seq::new(tools@.len(), |i: int| prefixed(server_name@, tools@[i].name@));
    let mut out: Vec<String> = Vec::new();
    let mut i: usize = 0;
    assert(text::texts(out@) =~= all.take(0));
    while i < tools.len()
        invariant
            i <= tools@.len(),
            all == Seq::new(tools@.len(), |j: int| prefixed(server_name@, tools@[j].name@)),
            text::texts(out@) == all.take(i as int),
        decreases tools@.len() - i,
    {
        let ghost before = text::texts(out@);
        out.push(prefixed_name(server_name, tools[i].name.as_str()));
        proof {
            assert(text::texts(out@) =~= before.push(all[i as int]));
            assert(all.take(i + 1) =~= before.push(all[i as int]));
        }
        i = i + 1;
    }
    assert(all.take(i as int) =~= all);
    out
}

/// The servers that are connected, no two of them under the same name.
pub struct McpClientManager<S> {
    servers: Vec<(String, S)>,
}

/// The server of that name.
pub open spec fn server_named<S>(s: Seq<(Seq<char>, S)>, name: Seq<char>, from: int) -> Option<S>
    decreases s.len() - from,
{
    if from < 0 || from >= s.len() {
        None
    } else if s[from].0 == name {
        Some(s[from].1)
    } else {
        server_named(s, name, from + 1)
    }
}

impl<S> View for McpClientManager<S> {
    type V = Seq<(Seq<char>, S)>;

    closed spec fn view(&self) -> Seq<(Seq<char>, S)> {
        Seq::new(self.servers@.len(), |i: int| (self.servers@[i].0@, self.servers@[i].1))
    }
}

impl<S> McpClientManager<S> {
    /// No server is connected.
    pub fn new() -> (r: Self)
        ensures
            r@ == Seq::<(Seq<char>, S)>::empty(),
    {
        let r: Self = McpClientManager { servers: Vec::new() };
        assert(r@ =~= Seq::<(Seq<char>, S)>::empty());
        r
    }

    /// The server of that name, if it is connected.
    pub fn get_server(&self, name: &str) -> (r: Option<&S>)
        ensures
            match r {
                Some(s) => server_named(self@, name@, 0) == Some(*s),
                None => server_named(self@, name@, 0) is None,
            },
    {
        let mut i: usize = 0;
        while i < self.servers.len()
            invariant
                i <= self.servers@.len(),
                server_named(self@, name@, 0) == server_named(self@, name@, i as int),
            decreases self.servers@.len() - i,
        {
            if text::same(self.servers[i].0.as_str(), name) {
                return Some(&self.servers[i].1);
            }
            i = i + 1;
        }
        None
    }

    /// Adds a server under a name that is not taken.
    pub fn add_server(&mut self, name: &str, server: S)
        requires
            server_named(old(self)@, name@, 0) is None,
        ensures
            final(self)@ == old(self)@.push((name@, server)),
    {
        let ghost before = self@;
        self.servers.push((name.to_owned(), server));
        assert(self@ =~= before.push((name@, server)));
    }

    /// The number of servers.
    pub fn len(&self) -> (r: usize)
        ensures
            r == self@.len(),
    {
        self.servers.len()
    }

    /// The server at a position, in the order in which they were connected.
    pub fn server(&self, i: usize) -> (r: (&str, &S))
        requires
            i < self@.len(),
        ensures
            (r.0@, *r.1) == self@[i as int],
    {
        (self.servers[i].0.as_str(), &self.servers[i].1)
    }
}

// ---------------------------------------------------------------------------
// Laws
// ---------------------------------------------------------------------------

/// No two members have the same key.
pub open spec fn distinct_keys(ms: Seq<(Seq<char>, JsonView)>) -> bool {
    forall|i: int, j: int| #![trigger ms[i], ms[j]]
        0 <= i < j < ms.len() ==> ms[i].0 != ms[j].0
}

proof fn lemma_member_position(ms: Seq<(Seq<char>, JsonView)>, key: Seq<char>, from: int)
    requires
        0 <= from <= ms.len(),
    ensures
        from <= member_position(ms, key, from) <= ms.len(),
        member_position(ms, key, from) < ms.len() ==> ms[member_position(ms, key, from)].0 == key,
        forall|i: int| #![trigger ms[i]]
            from <= i < member_position(ms, key, from) ==> ms[i].0 != key,
    decreases ms.len() - from,
{
    if from < ms.len() && ms[from].0 != key {
        lemma_member_position(ms, key, from + 1);
    }
}

proof fn lemma_has_member(ms: Seq<(Seq<char>, JsonView)>, key: Seq<char>)
    ensures
        has_member(ms, key) <==> exists|i: int| #![trigger ms[i]] 0 <= i < ms.len() && ms[i].0
            == key,
{
    lemma_member_position(ms, key, 0);
    if has_member(ms, key) {
        let k = member_position(ms, key, 0);
        assert(ms[k].0 == key);
    }
}

proof fn lemma_with_default(
    ms: Seq<(Seq<char>, JsonView)>,
    key: Seq<char>,
    value: JsonView,
    other: Seq<char>,
)
    requires
        distinct_keys(ms),
    ensures
        distinct_keys(with_default(ms, key, value)),
        has_member(with_default(ms, key, value), key),
        has_member(ms, other) ==> has_member(with_default(ms, key, value), other),
{
    let t = with_default(ms, key, value);
    lemma_has_member(ms, key);
    lemma_has_member(ms, other);
    lemma_has_member(t, key);
    lemma_has_member(t, other);
    if !has_member(ms, key) {
        assert(t[ms.len() as int].0 == key);
        if has_member(ms, other) {
            let i = choose|i: int| #![trigger ms[i]] 0 <= i < ms.len() && ms[i].0 == other;
            assert(t[i].0 == other);
        }
    }
}

/// A normalized schema says its type, has properties, and has no `$defs` left; normalizing it
/// again changes nothing.
pub proof fn law_normalized_schema_is_complete(ms: Seq<(Seq<char>, JsonView)>)
    requires
        distinct_keys(ms),
    ensures
        ({
            let t = normalized(JsonView::Object(ms))->Object_0;
            &&& normalized(JsonView::Object(ms)) is Object
            &&& has_member(t, "type"@)
            &&& has_member(t, "properties"@)
            &&& !has_member(t, "$defs"@)
            &&& normalized(JsonView::Object(t)) == JsonView::Object(t)
        }),
{
    reveal_strlit("type");
    reveal_strlit("properties");
    reveal_strlit("$defs");
    reveal_strlit("definitions");
    assert("type"@.len() == 4 && "properties"@.len() == 10 && "$defs"@.len() == 5
        && "definitions"@.len() == 11);
    let a = with_default(ms, "type"@, JsonView::Text("object"@));
    lemma_with_default(ms, "type"@, JsonView::Text("object"@), "type"@);
    let b = with_default(a, "properties"@, JsonView::Object(Seq::empty()));
    lemma_with_default(a, "properties"@, JsonView::Object(Seq::empty()), "type"@);
    let t = with_definitions(b);
    lemma_has_member(b, "type"@);
    lemma_has_member(b, "properties"@);
    lemma_has_member(t, "type"@);
    lemma_has_member(t, "properties"@);
    lemma_has_member(t, "$defs"@);
    lemma_member_position(b, "$defs"@, 0);
    if has_member(b, "$defs"@) {
        let k = member_position(b, "$defs"@, 0);
        let c = b.remove(k);
        lemma_member_position(c, "definitions"@, 0);
        let i = choose|i: int| #![trigger b[i]] 0 <= i < b.len() && b[i].0 == "type"@;
        let j = choose|j: int| #![trigger b[j]] 0 <= j < b.len() && b[j].0 == "properties"@;
        let i2 = if i < k {
            i
        } else {
            i - 1
        };
        let j2 = if j < k {
            j
        } else {
            j - 1
        };
        assert(c[i2] == b[i] && c[j2] == b[j]);
        assert(t[i2].0 == "type"@ && t[j2].0 == "properties"@);
        assert forall|x: int| #![trigger t[x]] 0 <= x < t.len() implies t[x].0 != "$defs"@ by {
            if x < c.len() && t[x] == c[x] {
                if x < k {
                    assert(c[x] == b[x]);
                } else {
                    assert(c[x] == b[x + 1]);
                }
            }
        }
    } else {
        assert forall|x: int| #![trigger t[x]] 0 <= x < t.len() implies t[x].0 != "$defs"@ by {}
    }
}

/// The tools of all servers share one beginning of their names.
pub proof fn law_prefixed_names_begin_alike(server: Seq<char>, tool: Seq<char>)
    ensures
        text::begins(prefixed(server, tool), "mcp_"@),
{
    let s = prefixed(server, tool);
    assert(s.subrange(0, "mcp_"@.len() as int) =~= "mcp_"@);
}

proof fn lemma_server_named<S>(s: Seq<(Seq<char>, S)>, e: (Seq<char>, S), name: Seq<char>, from: int)
    requires
        0 <= from <= s.len(),
    ensures
        server_named(s.push(e), name, from) == match server_named(s, name, from) {
            Some(x) => Some(x),
            None => if e.0 == name {
                Some(e.1)
            } else {
                None
            },
        },
    decreases s.len() - from,
{
    if from < s.len() {
        assert(s.push(e)[from] == s[from]);
        if s[from].0 != name {
            lemma_server_named(s, e, name, from + 1);
        }
    } else {
        assert(s.push(e)[from] == e);
        assert(server_named(s.push(e), name, from + 1) is None);
    }
}

/// A server that was added is found under its name, and every other name leads where it led
/// before.
pub proof fn law_added_server_is_found<S>(
    s: Seq<(Seq<char>, S)>,
    name: Seq<char>,
    server: S,
    other: Seq<char>,
)
    requires
        server_named(s, name, 0) is None,
        other != name,
    ensures
        server_named(s.push((name, server)), name, 0) == Some(server),
        server_named(s.push((name, server)), other, 0) == server_named(s, other, 0),
{
    lemma_server_named(s, (name, server), name, 0);
    lemma_server_named(s, (name, server), other, 0);
}

/// There is no member with the key.
pub open spec fn lacks(ms: Seq<(Seq<char>, JsonView)>, key: Seq<char>) -> bool {
    forall|i: int| 0 <= i < ms.len() ==> (#[trigger] ms[i]).0 != key
}

proof fn lemma_default_members(ms: Seq<(Seq<char>, JsonView)>, key: Seq<char>, value: JsonView)
    requires
        distinct_keys(ms),
    ensures
        ({
            let t = with_default(ms, key, value);
            &&& distinct_keys(t)
            &&& t.len() >= ms.len()
            &&& forall|i: int| 0 <= i < ms.len() ==> #[trigger] t[i] == ms[i]
            &&& lacks(ms, key) ==> t == ms.push((key, value))
            &&& !lacks(ms, key) ==> t == ms
            &&& !lacks(t, key)
        }),
{
    lemma_with_default(ms, key, value, key);
    lemma_has_member(ms, key);
    let t = with_default(ms, key, value);
    if lacks(ms, key) {
        assert(!has_member(ms, key));
        assert(t[ms.len() as int].0 == key);
    } else {
        let i = choose|i: int| 0 <= i < ms.len() && (#[trigger] ms[i]).0 == key;
        assert(has_member(ms, key));
    }
}

proof fn lemma_definitions_members(ms: Seq<(Seq<char>, JsonView)>)
    requires
        distinct_keys(ms),
    ensures
        ({
            let t = with_definitions(ms);
            &&& lacks(ms, "$defs"@) ==> t == ms
            &&& forall|i: int|
                0 <= i < ms.len() && (#[trigger] ms[i]).0 != "$defs"@ && ms[i].0 != "definitions"@
                    ==> t.contains(ms[i])
            &&& forall|i: int|
                0 <= i < ms.len() && (#[trigger] ms[i]).0 == "$defs"@ ==> t.contains(
                    ("definitions"@, ms[i].1),
                )
            &&& forall|k: int|
                0 <= k < t.len() ==> ms.contains(#[trigger] t[k]) || (t[k].0 == "definitions"@
                    && ms.contains(("$defs"@, t[k].1)))
        }),
{
    let t = with_definitions(ms);
    lemma_has_member(ms, "$defs"@);
    lemma_member_position(ms, "$defs"@, 0);
    if has_member(ms, "$defs"@) {
        let k = member_position(ms, "$defs"@, 0);
        let c = ms.remove(k);
        assert(!lacks(ms, "$defs"@)) by {
            assert(ms[k].0 == "$defs"@);
        }
        lemma_member_position(c, "definitions"@, 0);
        let p = member_position(c, "definitions"@, 0);
        let named = ("definitions"@, ms[k].1);
        assert(t[if p < c.len() {
            p
        } else {
            c.len() as int
        }] == named);
        assert(t.contains(named));
        assert forall|i: int|
            0 <= i < ms.len() && (#[trigger] ms[i]).0 != "$defs"@ && ms[i].0
                != "definitions"@ implies t.contains(ms[i]) by {
            let x = if i < k {
                i
            } else {
                i - 1
            };
            assert(c[x] == ms[i]);
            assert(t[x] == ms[i]);
        }
        assert forall|i: int| 0 <= i < ms.len() && (#[trigger] ms[i]).0 == "$defs"@ implies t.contains(
            ("definitions"@, ms[i].1),
        ) by {
            if i < k {
                assert(ms[i].0 != ms[k].0);
            } else if i > k {
                assert(ms[k].0 != ms[i].0);
            }
        }
        assert(ms[k] == ("$defs"@, ms[k].1));
        assert forall|x: int| 0 <= x < t.len() implies ms.contains(#[trigger] t[x]) || (t[x].0
            == "definitions"@ && ms.contains(("$defs"@, t[x].1))) by {
            if x != p && x < c.len() {
                assert(t[x] == c[x]);
                if x < k {
                    assert(c[x] == ms[x]);
                } else {
                    assert(c[x] == ms[x + 1]);
                }
            } else {
                assert(t[x] == named);
            }
        }
    } else {
        assert forall|i: int|
            0 <= i < ms.len() && (#[trigger] ms[i]).0 != "$defs"@ && ms[i].0
                != "definitions"@ implies t.contains(ms[i]) by {
            assert(t[i] == ms[i]);
        }
    }
}

/// Normalizing keeps what a schema says. Every member stays under its key with its value, but for
/// `$defs`, whose value is found under `definitions`; a missing type and missing properties are
/// added; nothing else is. A schema that has both and no `$defs` stays as it is, and so does what
/// is no object.
pub proof fn law_normalizing_keeps_the_schema(ms: Seq<(Seq<char>, JsonView)>, other: JsonView)
    requires
        distinct_keys(ms),
    ensures
        ({
            let t = normalized(JsonView::Object(ms))->Object_0;
            let kind = ("type"@, JsonView::Text("object"@));
            let none = ("properties"@, JsonView::Object(Seq::<(Seq<char>, JsonView)>::empty()));
            &&& normalized(JsonView::Object(ms)) is Object
            &&& forall|i: int|
                0 <= i < ms.len() && (#[trigger] ms[i]).0 != "$defs"@ && ms[i].0 != "definitions"@
                    ==> t.contains(ms[i])
            &&& forall|i: int|
                0 <= i < ms.len() && (#[trigger] ms[i]).0 == "$defs"@ ==> t.contains(
                    ("definitions"@, ms[i].1),
                )
            &&& lacks(ms, "$defs"@) ==> forall|i: int|
                0 <= i < ms.len() ==> t.contains(#[trigger] ms[i])
            &&& lacks(ms, "type"@) ==> t.contains(kind)
            &&& lacks(ms, "properties"@) ==> t.contains(none)
            &&& forall|k: int|
                0 <= k < t.len() ==> {
                    ||| ms.contains(#[trigger] t[k])
                    ||| t[k] == kind && lacks(ms, "type"@)
                    ||| t[k] == none && lacks(ms, "properties"@)
                    ||| t[k].0 == "definitions"@ && ms.contains(("$defs"@, t[k].1))
                }
            &&& !lacks(ms, "type"@) && !lacks(ms, "properties"@) && lacks(ms, "$defs"@) ==> t == ms
            &&& !(other is Object) ==> normalized(other) == other
        }),
{
    reveal_strlit("type");
    reveal_strlit("properties");
    reveal_strlit("$defs");
    reveal_strlit("definitions");
    assert("type"@.len() == 4 && "properties"@.len() == 10 && "$defs"@.len() == 5
        && "definitions"@.len() == 11);
    let kind = ("type"@, JsonView::Text("object"@));
    let none = ("properties"@, JsonView::Object(Seq::<(Seq<char>, JsonView)>::empty()));
    let a = with_default(ms, kind.0, kind.1);
    let b = with_default(a, none.0, none.1);
    let t = with_definitions(b);
    lemma_default_members(ms, kind.0, kind.1);
    lemma_default_members(a, none.0, none.1);
    lemma_definitions_members(b);
    assert forall|i: int| 0 <= i < ms.len() implies #[trigger] b[i] == ms[i] by {
        assert(a[i] == ms[i]);
    }
    assert(lacks(ms, "properties"@) <==> lacks(a, "properties"@)) by {
        if !lacks(ms, "properties"@) {
            let i = choose|i: int| 0 <= i < ms.len() && (#[trigger] ms[i]).0 == "properties"@;
            assert(a[i].0 == "properties"@);
        }
    }
    assert forall|i: int|
        0 <= i < ms.len() && (#[trigger] ms[i]).0 != "$defs"@ && ms[i].0
            != "definitions"@ implies t.contains(ms[i]) by {
        assert(b[i] == ms[i]);
    }
    assert forall|i: int| 0 <= i < ms.len() && (#[trigger] ms[i]).0 == "$defs"@ implies t.contains(
        ("definitions"@, ms[i].1),
    ) by {
        assert(b[i] == ms[i]);
    }
    if lacks(ms, "$defs"@) {
        assert(lacks(b, "$defs"@)) by {
            assert forall|x: int| 0 <= x < b.len() implies (#[trigger] b[x]).0 != "$defs"@ by {
                if x < a.len() && x >= ms.len() {
                    assert(b[x] == a[x]);
                }
            }
        }
        assert forall|i: int| 0 <= i < ms.len() implies t.contains(#[trigger] ms[i]) by {
            assert(t[i] == ms[i]);
        }
    }
    if lacks(ms, "type"@) {
        let x = ms.len() as int;
        assert(a[x] == kind);
        assert(b[x] == kind);
    }
    if lacks(ms, "properties"@) {
        assert(b[a.len() as int] == none);
    }
    assert forall|x: int| 0 <= x < b.len() implies ms.contains(#[trigger] b[x]) || (b[x] == kind
        && lacks(ms, "type"@)) || (b[x] == none && lacks(ms, "properties"@)) by {
        if x < ms.len() {
            assert(b[x] == ms[x]);
        } else if x < a.len() {
            assert(b[x] == a[x]);
        }
    }
    assert forall|k: int| 0 <= k < t.len() implies {
        ||| ms.contains(#[trigger] t[k])
        ||| t[k] == kind && lacks(ms, "type"@)
        ||| t[k] == none && lacks(ms, "properties"@)
        ||| t[k].0 == "definitions"@ && ms.contains(("$defs"@, t[k].1))
    } by {
        if b.contains(t[k]) {
            let x = choose|x: int| 0 <= x < b.len() && b[x] == t[k];
            assert(ms.contains(b[x]) || (b[x] == kind && lacks(ms, "type"@)) || (b[x] == none
                && lacks(ms, "properties"@)));
        } else {
            let pair = ("$defs"@, t[k].1);
            let x = choose|x: int| 0 <= x < b.len() && b[x] == pair;
            assert(ms.contains(b[x]) || b[x] == kind || b[x] == none);
        }
    }
}

/// A name of letters, numbers and underscores stays as it is but for the case of its letters, and
/// stands in the name under which a tool is registered: first the server, then the tool.
pub proof fn law_plain_names_are_kept(server: Seq<char>, tool: Seq<char>, name: Seq<char>)
    ensures
        (forall|i: int|
            0 <= i < unicode::lowercase(name).len() ==> (#[trigger] unicode::lowercase(name)[i])
                != '.' && (unicode::alphanumeric(unicode::lowercase(name)[i])
                || unicode::lowercase(name)[i] == '_')) ==> sanitized(name)
            == unicode::lowercase(name),
        prefixed(server, tool) == "mcp_"@ + sanitized(server) + "_"@ + sanitized(tool),
        text::stands_before(prefixed(server, tool), sanitized(server), sanitized(tool)),
        masked(masked(name)) == masked(name),
        masked(name).len() == name.len(),
        forall|i: int|
            0 <= i < name.len() && (unicode::alphanumeric(name[i]) || name[i] == '_') ==> (
            #[trigger] masked(name)[i]) == name[i],
        forall|i: int|
            0 <= i < name.len() && !unicode::alphanumeric(name[i]) ==> (#[trigger] masked(name)[i])
                == '_',
{
    let low = unicode::lowercase(name);
    assert(prefixed(server, tool) =~= "mcp_"@ + sanitized(server) + "_"@ + sanitized(tool)
        + Seq::<char>::empty());
    assert(masked(masked(name)) =~= masked(name));
    if forall|i: int|
        0 <= i < low.len() ==> (#[trigger] low[i]) != '.' && (unicode::alphanumeric(low[i])
            || low[i] == '_') {
        assert(masked(low) =~= low);
        reveal_strlit("..");
        text::lemma_found_from(low, ".."@, 0);
        match text::found(low, ".."@) {
            Some(i) => {
                assert(low.subrange(i, i + 2)[0] == '.');
                assert(low[i] == '.');
            },
            None => {
                assert(low.skip(0) =~= low);
                assert(text::pieces(low, ".."@) =~= seq![low]);
            },
        }
    }
}

/// Configured headers are used as they are; without any, every variable that looks like a header
/// is used, in order, and no other.
pub proof fn law_headers_are_chosen(
    headers: Seq<(Seq<char>, Seq<char>)>,
    env: Seq<(Seq<char>, Seq<char>)>,
    more: Seq<(Seq<char>, Seq<char>)>,
    pair: (Seq<char>, Seq<char>),
)
    ensures
        headers.len() > 0 ==> chosen_headers(headers, env) == headers,
        chosen_headers(Seq::empty(), env + more) == chosen_headers(Seq::empty(), env)
            + chosen_headers(Seq::empty(), more),
        ({
            let low = unicode::lowercase(pair.0);
            let used = chosen_headers(Seq::empty(), seq![pair]);
            if text::begins(low, "authorization"@) || text::begins(low, "x-"@) {
                used == seq![pair]
            } else {
                used.len() == 0
            }
        }),
    decreases more.len(),
{
    reveal_with_fuel(header_like, 2);
    assert(seq![pair].drop_last() =~= Seq::<(Seq<char>, Seq<char>)>::empty());
    if like_header(unicode::lowercase(pair.0)) {
        assert(header_like(seq![pair]) =~= seq![pair]);
    }
    if more.len() == 0 {
        assert(env + more =~= env);
        assert(header_like(env) + header_like(more) =~= header_like(env));
    } else {
        law_headers_are_chosen(headers, env, more.drop_last(), pair);
        assert((env + more).drop_last() =~= env + more.drop_last());
        assert(header_like(env + more) =~= header_like(env) + header_like(more));
    }
}

/// A message carries the session exactly where there is one, asks for a stream exactly where the
/// server streams, and carries every configured header, in order and at the end.
pub proof fn law_messages_carry_their_headers(
    streamable: bool,
    session_id: Option<Seq<char>>,
    headers: Seq<(Seq<char>, Seq<char>)>,
)
    ensures
        ({
            let hs = message_headers(streamable, session_id, headers);
            let own = hs.take(hs.len() - headers.len());
            &&& hs.len() >= headers.len()
            &&& hs.skip(hs.len() - headers.len()) == headers
            &&& session_id is Some ==> own.contains(("Mcp-Session-Id"@, session_id->0))
            &&& streamable ==> own.contains(("Accept"@, "application/json, text/event-stream"@))
            &&& own.len() == (if session_id is Some {
                1int
            } else {
                0
            }) + (if streamable {
                1int
            } else {
                0
            })
        }),
{
    let hs = message_headers(streamable, session_id, headers);
    let n = hs.len() - headers.len();
    let own = hs.take(n);
    assert(hs.skip(n) =~= headers);
    if streamable {
        assert(own[0] == ("Accept"@, "application/json, text/event-stream"@));
    }
    if session_id is Some {
        assert(own[n - 1] == ("Mcp-Session-Id"@, session_id->0));
    }
}

/// A request tells its number, its method and its parameters, in this order.
pub proof fn law_requests_tell_everything(id: u64, method: Seq<char>, params: JsonView)
    ensures
        ({
            let name = json::rendered(JsonView::Text(method));
            let number = number::decimal(id as nat);
            let with = request_body(id, method, Some(params));
            let without = request_body(id, method, None);
            &&& text::stands_before(without, number, ",\"method\":"@ + name)
            &&& text::stands_before(with, number, ",\"method\":"@ + name)
            &&& text::stands_before(
                with,
                ",\"method\":"@ + name,
                ",\"params\":"@ + json::rendered(params) + "}"@,
            )
            &&& text::finishes(with, ",\"params\":"@ + json::rendered(params) + "}"@)
        }),
{
    let head = "{\"jsonrpc\":\"2.0\",\"id\":"@;
    let number = number::decimal(id as nat);
    let name = ",\"method\":"@ + json::rendered(JsonView::Text(method));
    let tail = ",\"params\":"@ + json::rendered(params) + "}"@;
    let none = Seq::<char>::empty();
    let with = request_body(id, method, Some(params));
    let without = request_body(id, method, None);
    assert(without =~= head + number + none + name + "}"@);
    assert(with =~= head + number + none + name + tail);
    assert(with =~= (head + number) + name + none + tail + none);
    assert(with =~= (head + number + name) + tail + none);
    text::law_parts_are_in_the_whole(head + number + name, tail, none);
    assert(tail + none =~= tail);
}

/// An answer with an error fails with its number and its message, whatever else is in it; any other
/// gives its result.
pub proof fn law_errors_are_not_results(response: RpcResponse)
    ensures
        response.error is Some ==> settled(response) is Failed && text::stands_before(
            settled(response)->Failed_0,
            number::signed_decimal((response.error->0).code as int),
            (response.error->0).message@,
        ),
        response.error is None && response.result is Some ==> settled(response) == Outcome::Done(
            (response.result->0)@,
        ),
        response.error is None && response.result is None ==> settled(response) == Outcome::Done(
            JsonView::Null,
        ),
{
    if response.error is Some {
        let e = response.error->0;
        let code = number::signed_decimal(e.code as int);
        assert(settled(response)->Failed_0 =~= "MCP error "@ + code + ": "@ + e.message@
            + Seq::<char>::empty());
    }
}

/// The text in an event stream is that of the first line with data, whatever stands around it.
pub proof fn law_first_data_counts(
    before: Seq<Seq<char>>,
    line: Seq<char>,
    behind: Seq<Seq<char>>,
)
    requires
        forall|i: int|
            0 <= i < before.len() ==> !text::begins(
                text::trimmed(#[trigger] before[i]),
                "data:"@,
            ),
    ensures
        first_data(before) is None,
        text::begins(text::trimmed(line), "data:"@) ==> first_data(before + seq![line] + behind)
            == Some(text::trimmed(text::trimmed(line).skip(5))),
    decreases before.len(),
{
    let all = before + seq![line] + behind;
    if before.len() > 0 {
        let rest = before.drop_first();
        assert forall|i: int| 0 <= i < rest.len() implies !text::begins(
            text::trimmed(#[trigger] rest[i]),
            "data:"@,
        ) by {
            assert(rest[i] == before[i + 1]);
        }
        law_first_data_counts(rest, line, behind);
        assert(all.first() == before[0]);
        assert(all.drop_first() =~= rest + seq![line] + behind);
    } else {
        assert(all.first() == line);
    }
}

/// The result of a tool holds every text that the server gave, in order and each in a line of its
/// own; only where it gave none the result says so.
pub proof fn law_every_text_is_in_the_result(
    a: Seq<ToolContent>,
    b: Seq<ToolContent>,
    part: ToolContent,
)
    ensures
        texts_in(a + b) == texts_in(a) + texts_in(b),
        part.content_type@ == "text"@ && part.text is Some ==> texts_in(seq![part]) == seq![
            part.text->0@,
        ],
        part.content_type@ != "text"@ || part.text is None ==> texts_in(seq![part]).len() == 0,
        forall|i: int|
            0 <= i < texts_in(a).len() ==> text::includes(output_of(a), #[trigger] texts_in(a)[i]),
        texts_in(a).len() > 0 ==> output_of(a) == text::joined(texts_in(a), "\n"@),
        texts_in(a).len() == 0 ==> output_of(a) == "(empty result)"@,
    decreases b.len(),
{
    reveal_with_fuel(texts_in, 2);
    assert(seq![part].drop_last() =~= Seq::<ToolContent>::empty());
    if part.content_type@ == "text"@ && part.text is Some {
        assert(texts_in(seq![part]) =~= seq![part.text->0@]);
    }
    assert forall|i: int| 0 <= i < texts_in(a).len() implies text::includes(
        output_of(a),
        #[trigger] texts_in(a)[i],
    ) by {
        text::law_joined_holds_every_part(texts_in(a), "\n"@, i);
    }
    if b.len() == 0 {
        assert(a + b =~= a);
        assert(texts_in(a) + texts_in(b) =~= texts_in(a));
    } else {
        law_every_text_is_in_the_result(a, b.drop_last(), part);
        assert((a + b).drop_last() =~= a + b.drop_last());
        assert(texts_in(a + b) =~= texts_in(a) + texts_in(b));
    }
}

/// Messages go to the base address itself where the server streams, and else to one place below
/// it, whether that address ends with slashes or not.
pub proof fn law_message_address(base_url: Seq<char>, streamable: bool)
    ensures
        message_url(base_url.push('/'), streamable) == message_url(base_url, streamable),
        base_url.len() > 0 && base_url.last() != '/' ==> message_url(base_url, true) == base_url
            && message_url(base_url, false) == base_url + "/message"@,
{
    assert(base_url.push('/').drop_last() =~= base_url);
}

/// The usual variables are handed on to a server, and all that begin with `XDG_`; no other is.
pub proof fn law_usual_variables_are_handed_on(key: Seq<char>, rest: Seq<char>)
    ensures
        safe_variable("PATH"@) && safe_variable("HOME"@) && safe_variable("USER"@)
            && safe_variable("LANG"@) && safe_variable("LC_ALL"@) && safe_variable("TERM"@)
            && safe_variable("SHELL"@) && safe_variable("TMPDIR"@),
        safe_variable("XDG_"@ + rest),
        key != "PATH"@ && key != "HOME"@ && key != "USER"@ && key != "LANG"@ && key != "LC_ALL"@
            && key != "TERM"@ && key != "SHELL"@ && key != "TMPDIR"@ && !text::begins(key, "XDG_"@)
            ==> !safe_variable(key),
{
    text::law_parts_are_in_the_whole("XDG_"@, rest, Seq::empty());
    assert("XDG_"@ + rest + Seq::<char>::empty() =~= "XDG_"@ + rest);
}

} // verus!
