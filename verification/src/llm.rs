//! The chat-completions client: requests, retries, and replies, whole or streamed.

use crate::json;
use crate::json::{Json, JsonView};
use crate::models;
use crate::models::{
    ChatResponse,
    FunctionCall,
    Message,
    MessageRole,
    MessageView,
    ToolCall,
    ToolCallView,
    ToolSchema,
    ToolSchemaView,
};
use crate::text;
use crate::tool_registry;
use crate::tool_registry::ToolEntry;
use vstd::prelude::*;

verus! {

/// Tokens that a request took.
#[derive(Debug, Clone, Copy)]
pub struct Usage {
    pub prompt_tokens: i32,
    pub completion_tokens: i32,
    pub total_tokens: i32,
}

// ---------------------------------------------------------------------------
// Requests
// ---------------------------------------------------------------------------

/// What a client sends along with every request.
#[derive(Debug, Clone)]
pub struct LlmClient {
    pub api_key: String,
    pub base_url: String,
    pub model: String,
    pub max_tokens: i32,
    pub max_retries: u32,
    pub extra_headers: Vec<(String, String)>,
    pub timeout_secs: u64,
}

/// The texts of a list of headers.
pub open spec fn header_texts(v: Seq<(String, String)>) -> Seq<(Seq<char>, Seq<char>)> {
    Seq::new(v.len(), |i: int| (v[i].0@, v[i].1@))
}

/// The headers of a request: the kind of its body, the key if there is one, and the extra ones.
pub open spec fn request_headers(
    key: Seq<char>,
    extra: Seq<(Seq<char>, Seq<char>)>,
    streaming: bool,
) -> Seq<(Seq<char>, Seq<char>)> {
    let first = seq![("Content-Type"@, "application/json"@)];
    let second = if streaming {
        first.push(("Accept"@, "text/event-stream"@))
    } else {
        first
    };
    let third = if key.len() > 0 {
        second.push(("Authorization"@, "Bearer "@ + key))
    } else {
        second
    };
    third + extra
}

/// Where requests to the base address go.
pub open spec fn endpoint_of(base_url: Seq<char>) -> Seq<char> {
    text::without_trailing(base_url, '/') + "/chat/completions"@
}

/// How a tool is described to the service.
pub open spec fn tool_definition(s: ToolSchemaView) -> JsonView {
    JsonView::Object(
        seq![
            json::text_field("type"@, "function"@),
            (
                "function"@,
                JsonView::Object(
                    seq![
                        json::text_field("name"@, s.name),
                        json::text_field("description"@, s.description),
                        ("parameters"@, s.parameters),
                    ],
                ),
            ),
        ],
    )
}

fn define_tool(s: &ToolSchema) -> (r: Json)
    ensures
        r@ == tool_definition(s@),
{
    let mut function: Vec<(String, Json)> = Vec::new();
    function.push(json::text_entry("name", s.name.as_str()));
    function.push(json::text_entry("description", s.description.as_str()));
    function.push(("parameters".to_owned(), s.parameters.clone()));
    let mut outer: Vec<(String, Json)> = Vec::new();
    outer.push(json::text_entry("type", "function"));
    let inner: Json = Json::Object(function);
    proof {
        assert(inner@->Object_0 =~= seq![
            json::text_field("name"@, s.name@),
            json::text_field("description"@, s.description@),
            ("parameters"@, s.parameters@),
        ]);
    }
    outer.push(("function".to_owned(), inner));
    let r: Json = Json::Object(outer);
    proof {
        assert(r@->Object_0 =~= tool_definition(s@)->Object_0);
    }
    r
}

/// How the tools are described to the service.
pub fn tools_for_api(tools: &Vec<ToolSchema>) -> (r: Json)
    ensures
        r@ == JsonView::List(Seq::new(tools@.len(), |i: int| tool_definition(tools@[i]@))),
{
    let mut list: Vec<Json> = Vec::new();
    let mut i: usize = 0;
    while i < tools.len()
        invariant
            i <= tools@.len(),
            list@.len() == i,
            forall|j: int| #![trigger list@[j]]
                0 <= j < i ==> list@[j]@ == tool_definition(tools@[j]@),
        decreases tools@.len() - i,
    {
        list.push(define_tool(&tools[i]));
        i = i + 1;
    }
    let r: Json = Json::List(list);
    proof {
        assert(r@->List_0 =~= Seq::new(tools@.len(), |j: int| tool_definition(tools@[j]@)));
    }
    r
}

/// What to do after an attempt has failed.
#[derive(Debug, Clone, Copy, PartialEq, Eq, Structural)]
pub enum RetryStep {
    /// Wait that many milliseconds and try again.
    RetryAfter(u64),
    /// Report the error of this attempt.
    GiveUp,
}

impl LlmClient {
    /// A client with the usual settings.
    pub fn new(api_key: &str, base_url: &str, model: &str) -> (r: Self)
        ensures
            r.api_key@ == api_key@,
            r.base_url@ == base_url@,
            r.model@ == model@,
            r.max_tokens == 4096,
            r.max_retries == 3,
            r.extra_headers@.len() == 0,
            r.timeout_secs == 120,
    {
        LlmClient {
            api_key: api_key.to_owned(),
            base_url: base_url.to_owned(),
            model: model.to_owned(),
            max_tokens: 4096,
            max_retries: 3,
            extra_headers: Vec::new(),
            timeout_secs: 120,
        }
    }

    /// The client with another limit for the tokens of a reply.
    pub fn with_max_tokens(self, tokens: i32) -> (r: Self)
        ensures
            r == (LlmClient { max_tokens: tokens, ..self }),
    {
        let mut c: LlmClient = self;
        c.max_tokens = tokens;
        c
    }

    /// The client with other extra headers.
    pub fn with_extra_headers(self, headers: Vec<(String, String)>) -> (r: Self)
        ensures
            r == (LlmClient { extra_headers: headers, ..self }),
    {
        let mut c: LlmClient = self;
        c.extra_headers = headers;
        c
    }

    /// The client with another time limit for requests.
    pub fn with_timeout(self, secs: u64) -> (r: Self)
        ensures
            r == (LlmClient { timeout_secs: secs, ..self }),
    {
        let mut c: LlmClient = self;
        c.timeout_secs = secs;
        c
    }

    /// The model that requests go to.
    pub fn model(&self) -> (r: &str)
        ensures
            r@ == self.model@,
    {
        self.model.as_str()
    }

    /// The address that requests go to.
    pub fn endpoint(&self) -> (r: String)
        ensures
            r@ == endpoint_of(self.base_url@),
    {
        text::concat2(
            text::strip_trailing(self.base_url.as_str(), '/'),
            "/chat/completions",
        )
    }

    /// The headers of a request.
    pub fn headers(&self, streaming: bool) -> (r: Vec<(String, String)>)
        ensures
            header_texts(r@) == request_headers(
                self.api_key@,
                header_texts(self.extra_headers@),
                streaming,
            ),
    {
        let ghost extra = header_texts(self.extra_headers@);
        let mut out: Vec<(String, String)> = Vec::new();
        out.push(("Content-Type".to_owned(), "application/json".to_owned()));
        assert(header_texts(out@) =~= seq![("Content-Type"@, "application/json"@)]);
        let ghost first = header_texts(out@);
        if streaming {
            out.push(("Accept".to_owned(), "text/event-stream".to_owned()));
        }
        let ghost second = header_texts(out@);
        assert(second =~= if streaming {
            first.push(("Accept"@, "text/event-stream"@))
        } else {
            first
        });
        if self.api_key.as_str().unicode_len() > 0 {
            out.push(
                ("Authorization".to_owned(), text::concat2("Bearer ", self.api_key.as_str())),
            );
        }
        let ghost third = header_texts(out@);
        assert(third =~= if self.api_key@.len() > 0 {
            second.push(("Authorization"@, "Bearer "@ + self.api_key@))
        } else {
            second
        });
        let mut i: usize = 0;
        assert(header_texts(out@) =~= third + extra.take(0));
        while i < self.extra_headers.len()
            invariant
                i <= self.extra_headers@.len(),
                extra == header_texts(self.extra_headers@),
                header_texts(out@) == third + extra.take(i as int),
            decreases self.extra_headers@.len() - i,
        {
            let ghost before = header_texts(out@);
            out.push((self.extra_headers[i].0.clone(), self.extra_headers[i].1.clone()));
            proof {
                assert(header_texts(out@) =~= before.push(extra[i as int]));
                assert(third + extra.take(i + 1) =~= before.push(extra[i as int]));
            }
            i = i + 1;
        }
        assert(extra.take(i as int) =~= extra);
        out
    }

    /// What to do when the attempt with that number, counted from 0, has failed: wait half a
    /// second longer after each attempt, and give up after the last.
    pub fn after_failure(&self, attempt: u32) -> (r: RetryStep)
        requires
            attempt < self.max_retries,
        ensures
            r == if attempt + 1 < self.max_retries {
                RetryStep::RetryAfter((500 * (attempt + 1)) as u64)
            } else {
                RetryStep::GiveUp
            },
    {
        if attempt < self.max_retries - 1 {
            RetryStep::RetryAfter(500 * (attempt as u64 + 1))
        } else {
            RetryStep::GiveUp
        }
    }
}

// ---------------------------------------------------------------------------
// Whole replies
// ---------------------------------------------------------------------------

/// The message in a reply.
pub open spec fn reply_view(
    content: Option<Seq<char>>,
    reasoning: Option<Seq<char>>,
    tool_calls: Option<Seq<ToolCallView>>,
) -> MessageView {
    MessageView {
        role: MessageRole::Assistant,
        content: Some(models::text_or_empty(content)),
        tool_calls,
        tool_call_id: None,
        name: None,
        reasoning,
    }
}

/// The tool calls in an optional list.
pub open spec fn opt_calls(o: Option<Vec<ToolCall>>) -> Option<Seq<ToolCallView>> {
    match o {
        Some(v) => Some(models::calls(v@)),
        None => None,
    }
}

/// The tokens that a service reports, as they are counted here.
pub open spec fn usage_of(u: Option<models::Usage>) -> Option<Usage> {
    match u {
        Some(u) => Some(
            Usage {
                prompt_tokens: u.prompt_tokens,
                completion_tokens: u.completion_tokens,
                total_tokens: u.total_tokens,
            },
        ),
        None => None,
    }
}

/// The message and the tokens in a reply; a reply without a choice is an error.
pub fn reply_message(response: &ChatResponse) -> (r: Result<(Message, Option<Usage>), String>)
    ensures
        match r {
            Ok((m, usage)) => {
                &&& response.choices@.len() > 0
                &&& m@ == reply_view(
                    models::opt_text(response.choices@[0].message.content),
                    models::opt_text(response.choices@[0].message.reasoning_content),
                    opt_calls(response.choices@[0].message.tool_calls),
                )
                &&& usage == usage_of(response.usage)
            },
            Err(e) => response.choices@.len() == 0 && e@ == "Empty choices in response"@,
        },
{
    if response.choices.len() == 0 {
        return Err("Empty choices in response".to_owned());
    }
    let choice: &models::ResponseMessage = &response.choices[0].message;
    let mut msg: Message = Message::assistant(models::or_empty(&choice.content));
    match &choice.reasoning_content {
        Some(reasoning) => {
            msg = msg.with_reasoning(reasoning.as_str());
        },
        None => {},
    }
    match &choice.tool_calls {
        Some(tool_calls) => {
            msg = msg.with_tool_calls(models::copy_calls(tool_calls));
        },
        None => {},
    }
    let usage: Option<Usage> = match response.usage {
        Some(u) => Some(
            Usage {
                prompt_tokens: u.prompt_tokens,
                completion_tokens: u.completion_tokens,
                total_tokens: u.total_tokens,
            },
        ),
        None => None,
    };
    Ok((msg, usage))
}

// ---------------------------------------------------------------------------
// Streamed replies
// ---------------------------------------------------------------------------

/// The data in a line of an event stream; none where the line carries none.
pub open spec fn data_in(line: Seq<char>) -> Option<Seq<char>> {
    let t = text::trimmed(line);
    if text::begins(t, "data:"@) {
        let data = text::trimmed(t.skip("data:"@.len() as int));
        if data == "[DONE]"@ || data.len() == 0 {
            None
        } else {
            Some(data)
        }
    } else {
        None
    }
}

/// The data in the lines of an event stream, in order.
pub open spec fn data_in_lines(lines: Seq<Seq<char>>) -> Seq<Seq<char>>
    decreases lines.len(),
{
    if lines.len() == 0 {
        Seq::empty()
    } else {
        let rest = data_in_lines(lines.drop_last());
        match data_in(lines.last()) {
            Some(d) => rest.push(d),
            None => rest,
        }
    }
}

fn data_of(line: &str) -> (r: Option<String>)
    ensures
        models::opt_text(r) == data_in(line@),
{
    let t: &str = text::trim(line);
    if text::starts_with(t, "data:") {
        proof {
            reveal_strlit("data:");
        }
        let data: &str = text::trim(text::rest_from(t, 5));
        if text::same(data, "[DONE]") || data.unicode_len() == 0 {
            None
        } else {
            Some(data.to_owned())
        }
    } else {
        None
    }
}

/// The data in an event stream, in order.
pub fn stream_data(body: &str) -> (r: Vec<String>)
    ensures
        text::texts(r@) == data_in_lines(text::line_seq(body@)),
{
    let lines: Vec<String> = text::lines(body);
    let ghost all = text::texts(lines@);
    let mut out: Vec<String> = Vec::new();
    let mut i: usize = 0;
    assert(all.take(0) =~= Seq::<Seq<char>>::empty());
    assert(text::texts(out@) =~= Seq::<Seq<char>>::empty());
    while i < lines.len()
        invariant
            i <= lines@.len(),
            all == text::texts(lines@),
            text::texts(out@) == data_in_lines(all.take(i as int)),
        decreases lines@.len() - i,
    {
        let ghost before = text::texts(out@);
        proof {
            assert(all.take(i + 1).drop_last() =~= all.take(i as int));
            assert(all.take(i + 1).last() == lines@[i as int]@);
        }
        match data_of(lines[i].as_str()) {
            Some(d) => {
                out.push(d);
                assert(text::texts(out@) =~= before.push(d@));
            },
            None => {},
        }
        i = i + 1;
    }
    assert(all.take(i as int) =~= all);
    out
}

/// A piece of a tool call in a streamed reply.
#[derive(Debug, Clone)]
pub struct StreamToolCall {
    pub index: usize,
    pub id: Option<String>,
    pub name: Option<String>,
    pub arguments: Option<String>,
}

/// A piece of a streamed reply.
#[derive(Debug, Clone)]
pub struct StreamDelta {
    pub content: Option<String>,
    pub reasoning: Option<String>,
    pub tool_calls: Vec<StreamToolCall>,
}

/// What is known of a tool call so far.
#[derive(Debug)]
pub struct PartialToolCall {
    pub id: String,
    pub name: String,
    pub arguments: String,
}

/// What is known of a tool call so far, as plain texts.
pub struct PartialView {
    pub id: Seq<char>,
    pub name: Seq<char>,
    pub arguments: Seq<char>,
}

impl View for PartialToolCall {
    type V = PartialView;

    open spec fn view(&self) -> PartialView {
        PartialView { id: self.id@, name: self.name@, arguments: self.arguments@ }
    }
}

/// A tool call of which nothing is known.
pub open spec fn unknown_call() -> PartialView {
    PartialView { id: Seq::empty(), name: Seq::empty(), arguments: Seq::empty() }
}

/// What is known after one more piece: a new identifier or name takes the place of the old one,
/// arguments are added to those that came before.
pub open spec fn merged(p: PartialView, piece: StreamToolCall) -> PartialView {
    PartialView {
        id: match piece.id {
            Some(id) => id@,
            None => p.id,
        },
        name: match piece.name {
            Some(name) => name@,
            None => p.name,
        },
        arguments: match piece.arguments {
            Some(arguments) => p.arguments + arguments@,
            None => p.arguments,
        },
    }
}

/// The position of the call with the index, from `from` on; the length where there is none.
pub open spec fn call_position(ps: Seq<(usize, PartialView)>, index: usize, from: int) -> int
    decreases ps.len() - from,
{
    if from < 0 || from >= ps.len() {
        ps.len() as int
    } else if ps[from].0 == index {
        from
    } else {
        call_position(ps, index, from + 1)
    }
}

/// The calls after one more piece.
pub open spec fn with_piece(ps: Seq<(usize, PartialView)>, piece: StreamToolCall) -> Seq<
    (usize, PartialView),
> {
    let k = call_position(ps, piece.index, 0);
    if k < ps.len() {
        ps.update(k, (piece.index, merged(ps[k].1, piece)))
    } else {
        ps.push((piece.index, merged(unknown_call(), piece)))
    }
}

/// The calls after some more pieces.
pub open spec fn with_pieces(
    ps: Seq<(usize, PartialView)>,
    pieces: Seq<StreamToolCall>,
) -> Seq<(usize, PartialView)>
    decreases pieces.len(),
{
    if pieces.len() == 0 {
        ps
    } else {
        with_piece(with_pieces(ps, pieces.drop_last()), pieces.last())
    }
}

/// The content of a piece that is to be shown: none where there is none, or an empty one.
pub open spec fn shown_content(delta: StreamDelta) -> Option<Seq<char>> {
    match delta.content {
        Some(c) => if c@.len() > 0 {
            Some(c@)
        } else {
            None
        },
        None => None,
    }
}

/// What has come of a streamed reply so far.
#[derive(Debug)]
pub struct StreamAccumulator {
    pub content: String,
    pub reasoning: String,
    pub partials: Vec<(usize, PartialToolCall)>,
}

/// The calls of a streamed reply as plain texts.
pub open spec fn partial_views(v: Seq<(usize, PartialToolCall)>) -> Seq<(usize, PartialView)> {
    Seq::new(v.len(), |i: int| (v[i].0, v[i].1@))
}

/// The number of leading calls whose identifier does not come behind `id`.
pub open spec fn place_by_id(s: Seq<ToolCallView>, id: Seq<char>) -> int
    decreases s.len(),
{
    if s.len() == 0 || !text::at_most(s.first().id, id) {
        0
    } else {
        1 + place_by_id(s.drop_first(), id)
    }
}

/// The calls in the order of their identifiers; those with the same one stay in order.
pub open spec fn sorted_by_id(s: Seq<ToolCallView>) -> Seq<ToolCallView>
    decreases s.len(),
{
    if s.len() == 0 {
        s
    } else {
        let rest = sorted_by_id(s.drop_last());
        rest.insert(place_by_id(rest, s.last().id), s.last())
    }
}

/// The calls, whole, as they go into a message.
pub open spec fn whole_calls(ps: Seq<(usize, PartialView)>) -> Seq<ToolCallView> {
    Seq::new(
        ps.len(),
        |i: int|
            ToolCallView {
                id: ps[i].1.id,
                call_type: "function"@,
                name: ps[i].1.name,
                arguments: ps[i].1.arguments,
            },
    )
}

/// The message that a streamed reply comes to.
pub open spec fn streamed_message(
    content: Seq<char>,
    reasoning: Seq<char>,
    ps: Seq<(usize, PartialView)>,
) -> MessageView {
    reply_view(
        Some(content),
        if reasoning.len() > 0 {
            Some(reasoning)
        } else {
            None
        },
        if ps.len() > 0 {
            Some(sorted_by_id(whole_calls(ps)))
        } else {
            None
        },
    )
}

fn merge(p: &PartialToolCall, piece: &StreamToolCall) -> (r: PartialToolCall)
    ensures
        r@ == merged(p@, *piece),
{
    let id: String = match &piece.id {
        Some(id) => id.clone(),
        None => p.id.clone(),
    };
    let name: String = match &piece.name {
        Some(name) => name.clone(),
        None => p.name.clone(),
    };
    let arguments: String = match &piece.arguments {
        Some(arguments) => text::concat2(p.arguments.as_str(), arguments.as_str()),
        None => p.arguments.clone(),
    };
    PartialToolCall { id, name, arguments }
}

proof fn lemma_place_by_id(s: Seq<ToolCallView>, id: Seq<char>)
    ensures
        0 <= place_by_id(s, id) <= s.len(),
        forall|i: int| #![trigger s[i]] 0 <= i < place_by_id(s, id) ==> text::at_most(s[i].id, id),
        place_by_id(s, id) < s.len() ==> !text::at_most(s[place_by_id(s, id)].id, id),
    decreases s.len(),
{
    if s.len() > 0 && text::at_most(s.first().id, id) {
        let rest = s.drop_first();
        lemma_place_by_id(rest, id);
        assert forall|i: int| #![trigger s[i]] 0 <= i < place_by_id(s, id) implies text::at_most(
            s[i].id,
            id,
        ) by {
            if i > 0 {
                assert(rest[i - 1] == s[i]);
            }
        }
    }
}

fn insert_by_id(list: &mut Vec<ToolCall>, call: ToolCall)
    ensures
        models::calls(final(list)@) == models::calls(old(list)@).insert(
            place_by_id(models::calls(old(list)@), call.id@),
            call@,
        ),
{
    let ghost s = models::calls(list@);
    let n: usize = list.len();
    let mut i: usize = 0;
    assert(s.skip(0) =~= s);
    while i < n && text::in_order(list[i].id.as_str(), call.id.as_str())
        invariant
            i <= n == list@.len(),
            s == models::calls(list@),
            place_by_id(s, call.id@) == i + place_by_id(s.skip(i as int), call.id@),
        decreases n - i,
    {
        proof {
            assert(s.skip(i as int).first() == list@[i as int]@);
            assert(s.skip(i as int).drop_first() =~= s.skip(i + 1));
        }
        i = i + 1;
    }
    proof {
        if i < n {
            assert(s.skip(i as int).first() == list@[i as int]@);
        }
        lemma_place_by_id(s, call.id@);
    }
    let ghost view = call@;
    list.insert(i, call);
    proof {
        assert(models::calls(list@) =~= s.insert(i as int, view));
    }
}

impl StreamAccumulator {
    /// Nothing has come yet.
    pub fn new() -> (r: Self)
        ensures
            r.content@ == Seq::<char>::empty(),
            r.reasoning@ == Seq::<char>::empty(),
            r.partials@.len() == 0,
    {
        StreamAccumulator {
            content: String::new(),
            reasoning: String::new(),
            partials: Vec::new(),
        }
    }

    fn absorb_piece(&mut self, piece: &StreamToolCall)
        ensures
            final(self).content == old(self).content,
            final(self).reasoning == old(self).reasoning,
            partial_views(final(self).partials@) == with_piece(
                partial_views(old(self).partials@),
                *piece,
            ),
    {
        let ghost ps = partial_views(self.partials@);
        let n: usize = self.partials.len();
        let mut i: usize = 0;
        while i < n && self.partials[i].0 != piece.index
            invariant
                i <= n == self.partials@.len(),
                ps == partial_views(self.partials@),
                call_position(ps, piece.index, 0) == call_position(ps, piece.index, i as int),
            decreases n - i,
        {
            i = i + 1;
        }
        if i < n {
            let p: PartialToolCall = merge(&self.partials[i].1, piece);
            self.partials.set(i, (piece.index, p));
        } else {
            let blank: PartialToolCall = PartialToolCall {
                id: String::new(),
                name: String::new(),
                arguments: String::new(),
            };
            let p: PartialToolCall = merge(&blank, piece);
            self.partials.push((piece.index, p));
        }
        assert(partial_views(self.partials@) =~= with_piece(ps, *piece));
    }

    /// What has come of the reply is that of `before` and the piece.
    pub open spec fn grown_by(&self, before: &Self, delta: StreamDelta) -> bool {
        &&& self.content@ == before.content@ + models::text_or_empty(
            models::opt_text(delta.content),
        )
        &&& self.reasoning@ == before.reasoning@ + models::text_or_empty(
            models::opt_text(delta.reasoning),
        )
        &&& partial_views(self.partials@) == with_pieces(
            partial_views(before.partials@),
            delta.tool_calls@,
        )
    }

    /// Takes a piece of the reply. Gives the content in it that is to be shown, if there is any.
    pub fn absorb(&mut self, delta: &StreamDelta) -> (r: Option<String>)
        ensures
            final(self).grown_by(old(self), *delta),
            models::opt_text(r) == shown_content(*delta),
    {
        let mut token: Option<String> = None;
        match &delta.content {
            Some(c) => {
                if c.as_str().unicode_len() > 0 {
                    self.content.append(c.as_str());
                    token = Some(c.clone());
                } else {
                    assert(self.content@ + c@ =~= self.content@);
                }
            },
            None => {
                assert(self.content@ + Seq::<char>::empty() =~= self.content@);
            },
        }
        match &delta.reasoning {
            Some(t) => {
                self.reasoning.append(t.as_str());
            },
            None => {
                assert(self.reasoning@ + Seq::<char>::empty() =~= self.reasoning@);
            },
        }
        let ghost start = partial_views(self.partials@);
        let ghost content = self.content@;
        let ghost reasoning = self.reasoning@;
        let mut i: usize = 0;
        assert(delta.tool_calls@.take(0) =~= Seq::<StreamToolCall>::empty());
        while i < delta.tool_calls.len()
            invariant
                i <= delta.tool_calls@.len(),
                self.content@ == content,
                self.reasoning@ == reasoning,
                partial_views(self.partials@) == with_pieces(
                    start,
                    delta.tool_calls@.take(i as int),
                ),
            decreases delta.tool_calls@.len() - i,
        {
            proof {
                let t = delta.tool_calls@;
                assert(t.take(i + 1).drop_last() =~= t.take(i as int));
                assert(t.take(i + 1).last() == t[i as int]);
            }
            self.absorb_piece(&delta.tool_calls[i]);
            i = i + 1;
        }
        assert(delta.tool_calls@.take(i as int) =~= delta.tool_calls@);
        token
    }

    /// Takes a chunk of the reply: the pieces of the choices in it, or nothing where it could not
    /// be read. Only the first choice counts. Gives the content that is to be shown, if there is
    /// any.
    pub fn absorb_chunk(&mut self, choices: Option<Vec<StreamDelta>>) -> (r: Option<String>)
        ensures
            match choices {
                Some(v) => if v@.len() > 0 {
                    &&& final(self).grown_by(old(self), v@[0])
                    &&& models::opt_text(r) == shown_content(v@[0])
                } else {
                    *final(self) == *old(self) && r is None
                },
                None => *final(self) == *old(self) && r is None,
            },
    {
        match choices {
            Some(v) => if v.len() > 0 {
                self.absorb(&v[0])
            } else {
                None
            },
            None => None,
        }
    }

    /// The message that the reply has come to.
    pub fn finish(&self) -> (r: Message)
        ensures
            r@ == streamed_message(
                self.content@,
                self.reasoning@,
                partial_views(self.partials@),
            ),
    {
        let mut msg: Message = Message::assistant(self.content.as_str());
        if self.reasoning.as_str().unicode_len() > 0 {
            msg = msg.with_reasoning(self.reasoning.as_str());
        }
        if self.partials.len() > 0 {
            let ghost whole = whole_calls(partial_views(self.partials@));
            let mut list: Vec<ToolCall> = Vec::new();
            let mut i: usize = 0;
            assert(whole.take(0) =~= Seq::<ToolCallView>::empty());
            assert(models::calls(list@) =~= Seq::<ToolCallView>::empty());
            while i < self.partials.len()
                invariant
                    i <= self.partials@.len(),
                    whole == whole_calls(partial_views(self.partials@)),
                    models::calls(list@) == sorted_by_id(whole.take(i as int)),
                decreases self.partials@.len() - i,
            {
                let p: &PartialToolCall = &self.partials[i].1;
                let call: ToolCall = ToolCall {
                    id: p.id.clone(),
                    call_type: "function".to_owned(),
                    function: FunctionCall {
                        name: p.name.clone(),
                        arguments: p.arguments.clone(),
                    },
                };
                proof {
                    assert(whole.take(i + 1).drop_last() =~= whole.take(i as int));
                    assert(whole.take(i + 1).last() == call@);
                }
                insert_by_id(&mut list, call);
                i = i + 1;
            }
            assert(whole.take(i as int) =~= whole);
            msg = msg.with_tool_calls(list);
        }
        msg
    }
}

// ---------------------------------------------------------------------------
// Laws
// ---------------------------------------------------------------------------

/// The calls stand in the order of their identifiers.
pub open spec fn ordered_by_id(s: Seq<ToolCallView>) -> bool {
    forall|i: int, j: int| #![trigger s[i], s[j]]
        0 <= i <= j < s.len() ==> text::at_most(s[i].id, s[j].id)
}

proof fn lemma_reflexive(a: Seq<char>)
    ensures
        text::at_most(a, a),
{
    text::lemma_at_most_total(a, a);
}

/// The calls of a streamed reply come in the order of their identifiers, none is lost and none
/// is added.
pub proof fn law_sorting_keeps_calls(s: Seq<ToolCallView>)
    ensures
        ordered_by_id(sorted_by_id(s)),
        sorted_by_id(s).to_multiset() == s.to_multiset(),
        sorted_by_id(s).len() == s.len(),
    decreases s.len(),
{
    broadcast use vstd::seq_lib::group_to_multiset_ensures;

    if s.len() > 0 {
        let rest = sorted_by_id(s.drop_last());
        let x = s.last();
        law_sorting_keeps_calls(s.drop_last());
        lemma_place_by_id(rest, x.id);
        let k = place_by_id(rest, x.id);
        let t = rest.insert(k, x);
        assert forall|i: int, j: int| #![trigger t[i], t[j]]
            0 <= i <= j < t.len() implies text::at_most(t[i].id, t[j].id) by {
            if i == j {
                lemma_reflexive(t[i].id);
            } else if i == k {
                assert(t[j] == rest[j - 1]);
                text::lemma_at_most_total(rest[k].id, x.id);
                assert(text::at_most(x.id, rest[k].id));
                text::lemma_at_most_transitive(x.id, rest[k].id, rest[j - 1].id);
            } else if j == k {
                assert(t[i] == rest[i]);
            } else {
                let a = if i < k {
                    i
                } else {
                    i - 1
                };
                let b = if j < k {
                    j
                } else {
                    j - 1
                };
                assert(t[i] == rest[a] && t[j] == rest[b]);
            }
        }
        vstd::seq_lib::to_multiset_insert(rest, k, x);
        assert(s.drop_last().push(x) =~= s);
        vstd::seq_lib::to_multiset_build(s.drop_last(), x);
        assert(t.to_multiset() =~= s.to_multiset());
    }
}

/// The parameters that a tool is registered with reach the model unchanged: the tool is among
/// those that are listed, and they stand in its description to the service.
pub proof fn law_parameters_reach_the_model<T>(s: Seq<ToolEntry<T>>, e: ToolEntry<T>)
    ensures
        ({
            let all = tool_registry::put(s, e);
            let tools = tool_registry::schemas(all);
            let k = tool_registry::position(all, e.schema@.name, 0);
            let function = json::member(tool_definition(tools[k]), "function"@);
            &&& 0 <= k < tools.len()
            &&& tools[k] == e.schema@
            &&& function is Some
            &&& json::text_member(function->0, "name"@) == Some(e.schema@.name)
            &&& json::member(function->0, "parameters"@) == Some(e.schema@.parameters)
        }),
{
    reveal_strlit("type");
    reveal_strlit("function");
    reveal_strlit("name");
    reveal_strlit("description");
    reveal_strlit("parameters");
    assert("type"@.len() == 4 && "function"@.len() == 8 && "name"@.len() == 4
        && "description"@.len() == 11 && "parameters"@.len() == 10);
    let name = e.schema@.name;
    let all = tool_registry::put(s, e);
    tool_registry::lemma_position(s, name, 0);
    tool_registry::lemma_position(all, name, 0);
    let i = tool_registry::position(s, name, 0);
    assert(all[i] == e);
    let d = tool_definition(e.schema@);
    reveal_with_fuel(json::member_from, 4);
    assert(json::member(d, "function"@) is Some);
}

/// No two calls of a streamed reply have the same index.
pub open spec fn distinct_indexes(ps: Seq<(usize, PartialView)>) -> bool {
    forall|i: int, j: int| #![trigger ps[i], ps[j]]
        0 <= i < j < ps.len() ==> ps[i].0 != ps[j].0
}

proof fn lemma_call_position(ps: Seq<(usize, PartialView)>, index: usize, from: int)
    requires
        0 <= from <= ps.len(),
    ensures
        from <= call_position(ps, index, from) <= ps.len(),
        call_position(ps, index, from) < ps.len() ==> ps[call_position(ps, index, from)].0
            == index,
        forall|i: int| #![trigger ps[i]]
            from <= i < call_position(ps, index, from) ==> ps[i].0 != index,
    decreases ps.len() - from,
{
    if from < ps.len() && ps[from].0 != index {
        lemma_call_position(ps, index, from + 1);
    }
}

/// Pieces with the same index belong to one call: however they come, no index occurs twice.
pub proof fn law_one_call_per_index(ps: Seq<(usize, PartialView)>, pieces: Seq<StreamToolCall>)
    requires
        distinct_indexes(ps),
    ensures
        distinct_indexes(with_pieces(ps, pieces)),
    decreases pieces.len(),
{
    if pieces.len() > 0 {
        law_one_call_per_index(ps, pieces.drop_last());
        let before = with_pieces(ps, pieces.drop_last());
        lemma_call_position(before, pieces.last().index, 0);
    }
}

/// One piece tells of its own call only. It leaves the identifier and the name that it does not
/// carry as they were, and what it carries of the arguments stands behind those from before.
pub proof fn law_a_piece_adds_to_its_call(
    ps: Seq<(usize, PartialView)>,
    piece: StreamToolCall,
    k: int,
)
    requires
        distinct_indexes(ps),
        0 <= k < ps.len(),
    ensures
        ({
            let t = with_piece(ps, piece);
            &&& t[k].0 == ps[k].0
            &&& ps[k].0 != piece.index ==> t[k] == ps[k]
            &&& ps[k].0 == piece.index ==> {
                &&& t.len() == ps.len()
                &&& piece.id is None ==> t[k].1.id == ps[k].1.id
                &&& piece.id is Some ==> t[k].1.id == piece.id->0@
                &&& piece.name is None ==> t[k].1.name == ps[k].1.name
                &&& piece.name is Some ==> t[k].1.name == piece.name->0@
                &&& piece.arguments is None ==> t[k].1.arguments == ps[k].1.arguments
                &&& piece.arguments is Some ==> t[k].1.arguments == ps[k].1.arguments
                    + piece.arguments->0@
            }
        }),
{
    lemma_call_position(ps, piece.index, 0);
    let p = call_position(ps, piece.index, 0);
    if ps[k].0 == piece.index && p < k {
        assert(ps[p].0 != ps[k].0);
    }
}

/// The first piece with an index begins a call, behind all others, that holds what the piece
/// carries and nothing else.
pub proof fn law_a_new_index_begins_a_call(ps: Seq<(usize, PartialView)>, piece: StreamToolCall)
    requires
        forall|k: int| 0 <= k < ps.len() ==> (#[trigger] ps[k]).0 != piece.index,
    ensures
        ({
            let t = with_piece(ps, piece);
            &&& t.len() == ps.len() + 1
            &&& t.last().0 == piece.index
            &&& piece.id is None ==> t.last().1.id.len() == 0
            &&& piece.id is Some ==> t.last().1.id == piece.id->0@
            &&& piece.name is None ==> t.last().1.name.len() == 0
            &&& piece.name is Some ==> t.last().1.name == piece.name->0@
            &&& piece.arguments is None ==> t.last().1.arguments.len() == 0
            &&& piece.arguments is Some ==> t.last().1.arguments == piece.arguments->0@
        }),
{
    lemma_call_position(ps, piece.index, 0);
    if piece.arguments is Some {
        assert(Seq::<char>::empty() + piece.arguments->0@ =~= piece.arguments->0@);
    }
}

/// The argument texts of all pieces with the index, one behind the other.
pub open spec fn arguments_told(pieces: Seq<StreamToolCall>, index: usize) -> Seq<char>
    decreases pieces.len(),
{
    if pieces.len() == 0 {
        Seq::empty()
    } else {
        let before = arguments_told(pieces.drop_last(), index);
        if pieces.last().index == index && pieces.last().arguments is Some {
            before + pieces.last().arguments->0@
        } else {
            before
        }
    }
}

/// A call that came in pieces is put together from all of them, whatever came between: its name is
/// the last name that any of them carries (the piece `n`), its identifier the last identifier (the
/// piece `d`), and its arguments are all argument texts in order. Every index makes a call.
pub proof fn law_streamed_call_is_put_together(
    pieces: Seq<StreamToolCall>,
    index: usize,
    n: int,
    d: int,
)
    requires
        exists|m: int| 0 <= m < pieces.len() && (#[trigger] pieces[m]).index == index,
    ensures
        exists|k: int|
            0 <= k < with_pieces(Seq::empty(), pieces).len() && (#[trigger] with_pieces(
                Seq::empty(),
                pieces,
            )[k]).0 == index,
        forall|k: int|
            0 <= k < with_pieces(Seq::empty(), pieces).len() && (#[trigger] with_pieces(
                Seq::empty(),
                pieces,
            )[k]).0 == index ==> {
                let call = with_pieces(Seq::empty(), pieces)[k].1;
                &&& 0 <= n < pieces.len() && pieces[n].index == index && pieces[n].name is Some && (
                forall|m: int|
                    n < m < pieces.len() && (#[trigger] pieces[m]).index == index
                        ==> pieces[m].name is None) ==> call.name == pieces[n].name->0@
                &&& (forall|m: int|
                    0 <= m < pieces.len() && (#[trigger] pieces[m]).index == index
                        ==> pieces[m].name is None) ==> call.name.len() == 0
                &&& 0 <= d < pieces.len() && pieces[d].index == index && pieces[d].id is Some && (
                forall|m: int|
                    d < m < pieces.len() && (#[trigger] pieces[m]).index == index
                        ==> pieces[m].id is None) ==> call.id == pieces[d].id->0@
                &&& (forall|m: int|
                    0 <= m < pieces.len() && (#[trigger] pieces[m]).index == index
                        ==> pieces[m].id is None) ==> call.id.len() == 0
                &&& call.arguments == arguments_told(pieces, index)
            },
{
    lemma_pieces_told(pieces, index);
    lemma_told_texts(pieces, index, n, d);
    lemma_last_none(pieces, index);
    let t = with_pieces(Seq::empty(), pieces);
    let k = choose|k: int| 0 <= k < t.len() && (#[trigger] t[k]).0 == index;
    assert(t[k].0 == index);
}

spec fn last_name(pieces: Seq<StreamToolCall>, index: usize) -> Seq<char>
    decreases pieces.len(),
{
    if pieces.len() == 0 {
        Seq::empty()
    } else if pieces.last().index == index && pieces.last().name is Some {
        pieces.last().name->0@
    } else {
        last_name(pieces.drop_last(), index)
    }
}

spec fn last_id(pieces: Seq<StreamToolCall>, index: usize) -> Seq<char>
    decreases pieces.len(),
{
    if pieces.len() == 0 {
        Seq::empty()
    } else if pieces.last().index == index && pieces.last().id is Some {
        pieces.last().id->0@
    } else {
        last_id(pieces.drop_last(), index)
    }
}

proof fn lemma_pieces_told(pieces: Seq<StreamToolCall>, index: usize)
    ensures
        ({
            let t = with_pieces(Seq::empty(), pieces);
            &&& distinct_indexes(t)
            &&& (exists|k: int| 0 <= k < t.len() && (#[trigger] t[k]).0 == index) <==> (exists|
                m: int,
            |
                0 <= m < pieces.len() && (#[trigger] pieces[m]).index == index)
            &&& forall|k: int|
                0 <= k < t.len() && (#[trigger] t[k]).0 == index ==> t[k].1 == (PartialView {
                    id: last_id(pieces, index),
                    name: last_name(pieces, index),
                    arguments: arguments_told(pieces, index),
                })
            &&& !(exists|m: int| 0 <= m < pieces.len() && (#[trigger] pieces[m]).index == index)
                ==> last_id(pieces, index).len() == 0 && last_name(pieces, index).len() == 0
                && arguments_told(pieces, index).len() == 0
        }),
    decreases pieces.len(),
{
    let none = Seq::<(usize, PartialView)>::empty();
    law_one_call_per_index(none, pieces);
    if pieces.len() > 0 {
        let front = pieces.drop_last();
        let piece = pieces.last();
        let before = with_pieces(none, front);
        let t = with_pieces(none, pieces);
        lemma_pieces_told(front, index);
        lemma_call_position(before, piece.index, 0);
        assert forall|m: int| 0 <= m < front.len() implies #[trigger] front[m] == pieces[m] by {}
        assert(pieces[pieces.len() - 1] == piece);
        let p = call_position(before, piece.index, 0);
        if exists|m: int| 0 <= m < front.len() && (#[trigger] front[m]).index == index {
            let k = choose|k: int| 0 <= k < before.len() && (#[trigger] before[k]).0 == index;
            law_a_piece_adds_to_its_call(before, piece, k);
            assert(t[k].0 == index);
            let m = choose|m: int| 0 <= m < front.len() && (#[trigger] front[m]).index == index;
            assert(pieces[m].index == index);
            assert forall|x: int| 0 <= x < t.len() && (#[trigger] t[x]).0 == index implies t[x].1
                == (PartialView {
                id: last_id(pieces, index),
                name: last_name(pieces, index),
                arguments: arguments_told(pieces, index),
            }) by {
                if x < k {
                    assert(t[x].0 != t[k].0);
                } else if x > k {
                    assert(t[k].0 != t[x].0);
                }
            }
        } else if piece.index == index {
            assert(t[before.len() as int].0 == index) by {
                if p < before.len() {
                    assert(before[p].0 == index);
                }
            }
            assert forall|x: int| 0 <= x < t.len() && (#[trigger] t[x]).0 == index implies t[x].1
                == (PartialView {
                id: last_id(pieces, index),
                name: last_name(pieces, index),
                arguments: arguments_told(pieces, index),
            }) by {
                let n = before.len() as int;
                if x < n {
                    assert(t[x].0 != t[n].0);
                } else {
                    assert(t[x].1.id =~= last_id(pieces, index));
                    assert(t[x].1.name =~= last_name(pieces, index));
                    assert(t[x].1.arguments =~= arguments_told(pieces, index));
                }
            }
        } else {
            assert forall|x: int| 0 <= x < t.len() implies (#[trigger] t[x]).0 != index by {
                if x < before.len() {
                    law_a_piece_adds_to_its_call(before, piece, x);
                    assert(before[x].0 != index);
                }
            }
            assert forall|m: int| 0 <= m < pieces.len() implies (#[trigger] pieces[m]).index
                != index by {
                if m < front.len() {
                    assert(front[m].index != index);
                }
            }
        }
    }
}

proof fn lemma_told_texts(pieces: Seq<StreamToolCall>, index: usize, n: int, d: int)
    ensures
        0 <= n < pieces.len() && pieces[n].index == index && pieces[n].name is Some && (forall|
            m: int,
        |
            n < m < pieces.len() && (#[trigger] pieces[m]).index == index ==> pieces[m].name is None)
            ==> last_name(pieces, index) == pieces[n].name->0@,
        0 <= d < pieces.len() && pieces[d].index == index && pieces[d].id is Some && (forall|
            m: int,
        |
            d < m < pieces.len() && (#[trigger] pieces[m]).index == index ==> pieces[m].id is None)
            ==> last_id(pieces, index) == pieces[d].id->0@,
    decreases pieces.len(),
{
    if pieces.len() > 0 {
        let front = pieces.drop_last();
        lemma_told_texts(front, index, n, d);
        assert(pieces[pieces.len() - 1] == pieces.last());
        assert forall|m: int| 0 <= m < front.len() implies #[trigger] front[m] == pieces[m] by {}
    }
}

proof fn lemma_last_none(pieces: Seq<StreamToolCall>, index: usize)
    ensures
        (forall|m: int|
            0 <= m < pieces.len() && (#[trigger] pieces[m]).index == index
                ==> pieces[m].name is None) ==> last_name(pieces, index).len() == 0,
        (forall|m: int|
            0 <= m < pieces.len() && (#[trigger] pieces[m]).index == index ==> pieces[m].id is None)
            ==> last_id(pieces, index).len() == 0,
    decreases pieces.len(),
{
    if pieces.len() > 0 {
        let front = pieces.drop_last();
        lemma_last_none(front, index);
        assert(pieces[pieces.len() - 1] == pieces.last());
        assert forall|m: int| 0 <= m < front.len() implies #[trigger] front[m] == pieces[m] by {}
    }
}

/// The message of a streamed reply holds the whole content, the reasoning where there is any, and
/// every call with its identifier, name and arguments, and no others.
pub proof fn law_streamed_message_holds_everything(
    content: Seq<char>,
    reasoning: Seq<char>,
    ps: Seq<(usize, PartialView)>,
    i: int,
)
    ensures
        ({
            let m = streamed_message(content, reasoning, ps);
            &&& m.role == MessageRole::Assistant
            &&& m.content == Some(content)
            &&& reasoning.len() > 0 ==> m.reasoning == Some(reasoning)
            &&& reasoning.len() == 0 ==> m.reasoning is None
            &&& ps.len() == 0 ==> m.tool_calls is None
            &&& ps.len() > 0 ==> m.tool_calls is Some && m.tool_calls->0.len() == ps.len()
            &&& 0 <= i < ps.len() ==> exists|k: int|
                0 <= k < ps.len() && {
                    let c = #[trigger] m.tool_calls->0[k];
                    c.id == ps[i].1.id && c.name == ps[i].1.name && c.arguments
                        == ps[i].1.arguments && c.call_type == "function"@
                }
        }),
{
    let cs = whole_calls(ps);
    let sorted = sorted_by_id(cs);
    law_sorting_keeps_calls(cs);
    lemma_sorted_len(cs);
    if 0 <= i < ps.len() {
        cs.to_multiset_ensures();
        sorted.to_multiset_ensures();
        assert(cs.contains(cs[i]));
        assert(cs.to_multiset().count(cs[i]) > 0);
        assert(sorted.to_multiset().count(cs[i]) > 0);
        assert(sorted.contains(cs[i]));
        let k = choose|k: int| 0 <= k < sorted.len() && sorted[k] == cs[i];
        assert(streamed_message(content, reasoning, ps).tool_calls->0[k] == cs[i]);
    }
}

proof fn lemma_sorted_len(s: Seq<ToolCallView>)
    ensures
        sorted_by_id(s).len() == s.len(),
    decreases s.len(),
{
    if s.len() > 0 {
        let rest = sorted_by_id(s.drop_last());
        lemma_sorted_len(s.drop_last());
        lemma_place_by_id(rest, s.last().id);
    }
}

/// A whole reply keeps its content, its reasoning and its tool calls; a missing content is empty.
pub proof fn law_reply_is_kept(
    content: Option<Seq<char>>,
    reasoning: Option<Seq<char>>,
    tool_calls: Option<Seq<ToolCallView>>,
)
    ensures
        ({
            let m = reply_view(content, reasoning, tool_calls);
            &&& m.role == MessageRole::Assistant
            &&& content is Some ==> m.content == content
            &&& content is None ==> m.content is Some && m.content->0.len() == 0
            &&& m.reasoning == reasoning
            &&& m.tool_calls == tool_calls
            &&& m.tool_call_id is None
        }),
{
}

/// A request says that it carries JSON, proves who asks exactly where there is a key, asks for a
/// stream exactly where one is wanted, and carries every extra header, in order and at the end.
pub proof fn law_requests_carry_their_headers(
    key: Seq<char>,
    extra: Seq<(Seq<char>, Seq<char>)>,
    streaming: bool,
)
    ensures
        ({
            let hs = request_headers(key, extra, streaming);
            let own = hs.take(hs.len() - extra.len());
            &&& hs.len() >= extra.len()
            &&& hs.skip(hs.len() - extra.len()) == extra
            &&& own.contains(("Content-Type"@, "application/json"@))
            &&& key.len() > 0 ==> own.contains(("Authorization"@, "Bearer "@ + key))
            &&& streaming ==> own.contains(("Accept"@, "text/event-stream"@))
            &&& own.len() == 1 + (if key.len() > 0 {
                1int
            } else {
                0
            }) + (if streaming {
                1int
            } else {
                0
            })
        }),
{
    let hs = request_headers(key, extra, streaming);
    let n = hs.len() - extra.len();
    let own = hs.take(n);
    assert(hs.skip(n) =~= extra);
    assert(own[0] == ("Content-Type"@, "application/json"@));
    if streaming {
        assert(own[1] == ("Accept"@, "text/event-stream"@));
    }
    if key.len() > 0 {
        assert(own[n - 1] == ("Authorization"@, "Bearer "@ + key));
    }
}

/// Requests go to one place below the base address, whether that ends with slashes or not.
pub proof fn law_endpoint_ignores_trailing_slashes(base_url: Seq<char>)
    ensures
        endpoint_of(base_url.push('/')) == endpoint_of(base_url),
        base_url.len() > 0 && base_url.last() != '/' ==> endpoint_of(base_url) == base_url
            + "/chat/completions"@,
{
    assert(base_url.push('/').drop_last() =~= base_url);
}

/// The data of a stream comes line by line and in order: what two lists of lines carry is what the
/// first carries and then what the second does.
pub proof fn law_stream_is_read_line_by_line(
    a: Seq<Seq<char>>,
    b: Seq<Seq<char>>,
    line: Seq<char>,
)
    ensures
        data_in_lines(a + b) == data_in_lines(a) + data_in_lines(b),
        data_in(line) is Some ==> data_in_lines(seq![line]) == seq![data_in(line)->0],
        data_in(line) is None ==> data_in_lines(seq![line]).len() == 0,
    decreases b.len(),
{
    reveal_with_fuel(data_in_lines, 2);
    assert(seq![line].drop_last() =~= Seq::<Seq<char>>::empty());
    if data_in(line) is Some {
        assert(data_in_lines(seq![line]) =~= seq![data_in(line)->0]);
    }
    if b.len() == 0 {
        assert(a + b =~= a);
        assert(data_in_lines(a) + data_in_lines(b) =~= data_in_lines(a));
    } else {
        law_stream_is_read_line_by_line(a, b.drop_last(), line);
        assert((a + b).drop_last() =~= a + b.drop_last());
        assert(data_in_lines(a + b) =~= data_in_lines(a) + data_in_lines(b));
    }
}

/// A line carries what stands in it behind `data:`, and nothing where that is the end mark; a line
/// that begins otherwise carries nothing.
pub proof fn law_a_line_carries_its_data(d: Seq<char>)
    requires
        d.len() > 0,
        !text::is_space(d.first()),
        !text::is_space(d.last()),
    ensures
        d != "[DONE]"@ ==> data_in("data: "@ + d) == Some(d),
        d != "[DONE]"@ ==> data_in("data:"@ + d) == Some(d),
        d == "[DONE]"@ ==> data_in("data: "@ + d) is None,
        !text::begins(d, "data:"@) ==> data_in(d) is None,
{
    lemma_data_behind(d);
    lemma_data_behind(seq![' '] + d);
    assert("data: "@ + d =~= "data:"@ + (seq![' '] + d)) by {
        reveal_strlit("data: ");
        reveal_strlit("data:");
    }
    text::lemma_trimmed_is(d);
    let rest = seq![' '] + d;
    assert(rest.drop_first() =~= d);
    assert(text::left_trimmed(rest) == text::left_trimmed(d));
}

proof fn lemma_data_behind(rest: Seq<char>)
    requires
        rest.len() > 0,
        !text::is_space(rest.last()),
    ensures
        text::trimmed("data:"@ + rest) == "data:"@ + rest,
        text::begins("data:"@ + rest, "data:"@),
        ("data:"@ + rest).skip("data:"@.len() as int) == rest,
{
    reveal_strlit("data:");
    let line = "data:"@ + rest;
    text::lemma_trimmed_is(line);
    assert(line.first() == 'd');
    assert(line.last() == rest.last());
    assert(line.subrange(0, 5) =~= "data:"@);
    assert(line.skip(5) =~= rest);
}

/// What has come of a reply grows by what each piece brings: its content and its reasoning are put
/// behind those so far, and a piece that brings none leaves them.
pub proof fn law_replies_grow_by_pieces(
    before: StreamAccumulator,
    after: StreamAccumulator,
    delta: StreamDelta,
)
    requires
        after.grown_by(&before, delta),
    ensures
        delta.content matches Some(c) ==> after.content@ == before.content@ + c@,
        delta.content is None ==> after.content@ == before.content@,
        delta.reasoning matches Some(c) ==> after.reasoning@ == before.reasoning@ + c@,
        delta.reasoning is None ==> after.reasoning@ == before.reasoning@,
        delta.tool_calls@.len() == 0 ==> partial_views(after.partials@) == partial_views(
            before.partials@,
        ),
        delta.tool_calls@.len() == 1 ==> partial_views(after.partials@) == with_piece(
            partial_views(before.partials@),
            delta.tool_calls@[0],
        ),
{
    reveal_with_fuel(with_pieces, 2);
    assert(before.content@ + Seq::<char>::empty() =~= before.content@);
    assert(before.reasoning@ + Seq::<char>::empty() =~= before.reasoning@);
}

/// The service is told the name, the description and the parameters of a tool as they are.
pub proof fn law_tools_are_described_in_full(s: ToolSchemaView)
    ensures
        ({
            let f = json::member(tool_definition(s), "function"@);
            &&& json::text_member(tool_definition(s), "type"@) == Some("function"@)
            &&& f is Some
            &&& json::text_member(f->0, "name"@) == Some(s.name)
            &&& json::text_member(f->0, "description"@) == Some(s.description)
            &&& json::member(f->0, "parameters"@) == Some(s.parameters)
        }),
{
    reveal_with_fuel(json::member_from, 4);
    reveal_strlit("type");
    reveal_strlit("function");
    reveal_strlit("name");
    reveal_strlit("description");
    reveal_strlit("parameters");
    assert("type"@[0] == 't' && "function"@[0] == 'f' && "name"@[0] == 'n' && "description"@[0]
        == 'd' && "parameters"@[0] == 'p');
}

/// The tokens that a service reports are taken over number by number; where it reports none there
/// are none.
pub proof fn law_tokens_are_taken_over(u: models::Usage)
    ensures
        usage_of(Some(u)) is Some,
        usage_of(Some(u))->0.prompt_tokens == u.prompt_tokens,
        usage_of(Some(u))->0.completion_tokens == u.completion_tokens,
        usage_of(Some(u))->0.total_tokens == u.total_tokens,
        usage_of(None) is None,
{
}

} // verus!
