//! Shared data of the agent: messages in the chat-completions format, tools, replies of
//! the model, and the configuration.

use crate::json::{Json, JsonView};
use crate::text;
use vstd::prelude::*;

verus! {

// ---------------------------------------------------------------------------
// Messages
// ---------------------------------------------------------------------------

/// Who a message comes from.
#[derive(Debug, Clone, Copy, PartialEq, Eq, Structural)]
pub enum MessageRole {
    System,
    User,
    Assistant,
    Tool,
}

/// The function that a tool call names, with its arguments as JSON text.
#[derive(Debug)]
pub struct FunctionCall {
    pub name: String,
    pub arguments: String,
}

/// A tool call that the model asks for.
#[derive(Debug)]
pub struct ToolCall {
    pub id: String,
    pub call_type: String,
    pub function: FunctionCall,
}

/// A message of a conversation.
#[derive(Debug)]
pub struct Message {
    pub role: MessageRole,
    pub content: Option<String>,
    pub tool_calls: Option<Vec<ToolCall>>,
    pub tool_call_id: Option<String>,
    pub name: Option<String>,
    /// Reasoning of the model; it is not sent back to it.
    pub reasoning: Option<String>,
}

/// A tool call as plain texts.
#[verifier::ext_equal]
pub struct ToolCallView {
    pub id: Seq<char>,
    pub call_type: Seq<char>,
    pub name: Seq<char>,
    pub arguments: Seq<char>,
}

/// A message as plain texts.
#[verifier::ext_equal]
pub struct MessageView {
    pub role: MessageRole,
    pub content: Option<Seq<char>>,
    pub tool_calls: Option<Seq<ToolCallView>>,
    pub tool_call_id: Option<Seq<char>>,
    pub name: Option<Seq<char>>,
    pub reasoning: Option<Seq<char>>,
}

/// The text in an optional string.
pub open spec fn opt_text(o: Option<String>) -> Option<Seq<char>> {
    match o {
        Some(s) => Some(s@),
        None => None,
    }
}

/// The text in an optional string, empty where there is none.
pub open spec fn text_or_empty(o: Option<Seq<char>>) -> Seq<char> {
    match o {
        Some(s) => s,
        None => Seq::empty(),
    }
}

impl View for ToolCall {
    type V = ToolCallView;

    open spec fn view(&self) -> ToolCallView {
        ToolCallView {
            id: self.id@,
            call_type: self.call_type@,
            name: self.function.name@,
            arguments: self.function.arguments@,
        }
    }
}

/// The plain texts of a list of tool calls.
pub open spec fn calls(v: Seq<ToolCall>) -> Seq<ToolCallView> {
    Seq::new(v.len(), |i: int| v[i]@)
}

impl View for Message {
    type V = MessageView;

    open spec fn view(&self) -> MessageView {
        MessageView {
            role: self.role,
            content: opt_text(self.content),
            tool_calls: match self.tool_calls {
                Some(v) => Some(calls(v@)),
                None => None,
            },
            tool_call_id: opt_text(self.tool_call_id),
            name: opt_text(self.name),
            reasoning: opt_text(self.reasoning),
        }
    }
}

/// The plain texts of a list of messages.
pub open spec fn messages(v: Seq<Message>) -> Seq<MessageView> {
    Seq::new(v.len(), |i: int| v[i]@)
}

/// A message with a role and a content and nothing else.
pub open spec fn plain_message(role: MessageRole, content: Seq<char>) -> MessageView {
    MessageView {
        role,
        content: Some(content),
        tool_calls: None,
        tool_call_id: None,
        name: None,
        reasoning: None,
    }
}

/// The message that answers a tool call.
pub open spec fn tool_message(id: Seq<char>, name: Seq<char>, content: Seq<char>) -> MessageView {
    MessageView {
        role: MessageRole::Tool,
        content: Some(content),
        tool_calls: None,
        tool_call_id: Some(id),
        name: Some(name),
        reasoning: None,
    }
}

impl Clone for FunctionCall {
    fn clone(&self) -> (r: Self)
        ensures
            r == *self,
    {
        FunctionCall { name: self.name.clone(), arguments: self.arguments.clone() }
    }
}

impl Clone for ToolCall {
    fn clone(&self) -> (r: Self)
        ensures
            r == *self,
    {
        ToolCall {
            id: self.id.clone(),
            call_type: self.call_type.clone(),
            function: self.function.clone(),
        }
    }
}

/// A copy of an optional string.
pub fn copy_opt(o: &Option<String>) -> (r: Option<String>)
    ensures
        r == *o,
{
    match o {
        Some(s) => Some(s.clone()),
        None => None,
    }
}

/// The text of an optional string, empty where there is none.
pub fn or_empty(o: &Option<String>) -> (r: &str)
    ensures
        r@ == text_or_empty(opt_text(*o)),
{
    match o {
        Some(s) => s.as_str(),
        None => {
            proof {
                reveal_strlit("");
                assert(""@ =~= Seq::<char>::empty());
            }
            ""
        },
    }
}

/// A copy of a list of tool calls.
pub fn copy_calls(v: &Vec<ToolCall>) -> (r: Vec<ToolCall>)
    ensures
        calls(r@) == calls(v@),
        r@ == v@,
{
    let mut out: Vec<ToolCall> = Vec::new();
    let mut i: usize = 0;
    while i < v.len()
        invariant
            i <= v@.len(),
            out@ == v@.take(i as int),
        decreases v@.len() - i,
    {
        out.push(v[i].clone());
        i = i + 1;
    }
    assert(v@.take(i as int) =~= v@);
    out
}

impl Clone for Message {
    fn clone(&self) -> (r: Self)
        ensures
            r@ == self@,
    {
        Message {
            role: self.role,
            content: copy_opt(&self.content),
            tool_calls: match &self.tool_calls {
                Some(v) => Some(copy_calls(v)),
                None => None,
            },
            tool_call_id: copy_opt(&self.tool_call_id),
            name: copy_opt(&self.name),
            reasoning: copy_opt(&self.reasoning),
        }
    }
}

/// A copy of the messages from position `from` up to `to`.
pub fn copy_messages(v: &Vec<Message>, from: usize, to: usize) -> (r: Vec<Message>)
    requires
        from <= to <= v@.len(),
    ensures
        messages(r@) == messages(v@).subrange(from as int, to as int),
{
    let mut out: Vec<Message> = Vec::new();
    let mut i: usize = from;
    assert(messages(out@) =~= messages(v@).subrange(from as int, from as int));
    while i < to
        invariant
            from <= i <= to <= v@.len(),
            messages(out@) == messages(v@).subrange(from as int, i as int),
        decreases to - i,
    {
        let ghost before = out@;
        out.push(v[i].clone());
        proof {
            assert(messages(out@) =~= messages(before).push(v@[i as int]@));
            assert(messages(v@).subrange(from as int, i + 1) =~= messages(v@).subrange(
                from as int,
                i as int,
            ).push(v@[i as int]@));
        }
        i = i + 1;
    }
    out
}

impl Message {
    /// A system message.
    pub fn system(content: &str) -> (r: Self)
        ensures
            r@ == plain_message(MessageRole::System, content@),
    {
        Message {
            role: MessageRole::System,
            content: Some(content.to_owned()),
            tool_calls: None,
            tool_call_id: None,
            name: None,
            reasoning: None,
        }
    }

    /// A message of the user.
    pub fn user(content: &str) -> (r: Self)
        ensures
            r@ == plain_message(MessageRole::User, content@),
    {
        Message {
            role: MessageRole::User,
            content: Some(content.to_owned()),
            tool_calls: None,
            tool_call_id: None,
            name: None,
            reasoning: None,
        }
    }

    /// A message of the model.
    pub fn assistant(content: &str) -> (r: Self)
        ensures
            r@ == plain_message(MessageRole::Assistant, content@),
    {
        Message {
            role: MessageRole::Assistant,
            content: Some(content.to_owned()),
            tool_calls: None,
            tool_call_id: None,
            name: None,
            reasoning: None,
        }
    }

    /// The answer to a tool call.
    pub fn tool(tool_call_id: &str, name: &str, content: &str) -> (r: Self)
        ensures
            r@ == tool_message(tool_call_id@, name@, content@),
    {
        Message {
            role: MessageRole::Tool,
            content: Some(content.to_owned()),
            tool_calls: None,
            tool_call_id: Some(tool_call_id.to_owned()),
            name: Some(name.to_owned()),
            reasoning: None,
        }
    }

    /// The message with its reasoning set.
    pub fn with_reasoning(self, reasoning: &str) -> (r: Self)
        ensures
            r@ == (MessageView { reasoning: Some(reasoning@), ..self@ }),
    {
        let mut m: Message = self;
        m.reasoning = Some(reasoning.to_owned());
        m
    }

    /// The message with its tool calls set.
    pub fn with_tool_calls(self, tool_calls: Vec<ToolCall>) -> (r: Self)
        ensures
            r@ == (MessageView { tool_calls: Some(calls(tool_calls@)), ..self@ }),
    {
        let mut m: Message = self;
        m.tool_calls = Some(tool_calls);
        m
    }
}

// ---------------------------------------------------------------------------
// Tools
// ---------------------------------------------------------------------------

/// A tool as the model sees it; its parameters are a JSON schema.
#[derive(Debug)]
pub struct ToolSchema {
    pub name: String,
    pub description: String,
    pub parameters: Json,
}

/// A tool as the model sees it, as plain data.
pub struct ToolSchemaView {
    pub name: Seq<char>,
    pub description: Seq<char>,
    pub parameters: JsonView,
}

impl View for ToolSchema {
    type V = ToolSchemaView;

    open spec fn view(&self) -> ToolSchemaView {
        ToolSchemaView {
            name: self.name@,
            description: self.description@,
            parameters: self.parameters@,
        }
    }
}

/// The plain data of a list of schemas.
pub open spec fn schemas(v: Seq<ToolSchema>) -> Seq<ToolSchemaView> {
    Seq::new(v.len(), |i: int| v[i]@)
}

impl Clone for ToolSchema {
    fn clone(&self) -> (r: Self)
        ensures
            r@ == self@,
    {
        ToolSchema {
            name: self.name.clone(),
            description: self.description.clone(),
            parameters: self.parameters.clone(),
        }
    }
}

/// What a tool call gave.
#[derive(Debug, Clone)]
pub struct ToolResult {
    pub tool_call_id: String,
    pub name: String,
    pub content: String,
    pub is_error: bool,
}

/// Where a tool comes from.
#[derive(Debug)]
pub enum ToolSource {
    Builtin,
    Mcp { server: String },
    Skill { skill: String },
}

impl Clone for ToolSource {
    fn clone(&self) -> (r: Self)
        ensures
            r == *self,
    {
        match self {
            ToolSource::Builtin => ToolSource::Builtin,
            ToolSource::Mcp { server } => ToolSource::Mcp { server: server.clone() },
            ToolSource::Skill { skill } => ToolSource::Skill { skill: skill.clone() },
        }
    }
}

// ---------------------------------------------------------------------------
// Replies of the model
// ---------------------------------------------------------------------------

/// Tokens that a request took, as the service reports them.
#[derive(Debug, Clone, Copy)]
pub struct Usage {
    pub prompt_tokens: i32,
    pub completion_tokens: i32,
    pub total_tokens: i32,
}

/// The message in a reply.
#[derive(Debug)]
pub struct ResponseMessage {
    pub role: String,
    pub content: Option<String>,
    pub tool_calls: Option<Vec<ToolCall>>,
    pub reasoning_content: Option<String>,
}

/// One of the answers in a reply.
#[derive(Debug)]
pub struct Choice {
    pub index: i32,
    pub message: ResponseMessage,
    pub finish_reason: Option<String>,
}

/// A reply to a chat request.
#[derive(Debug)]
pub struct ChatResponse {
    pub id: Option<String>,
    pub model: Option<String>,
    pub choices: Vec<Choice>,
    pub usage: Option<Usage>,
}

// ---------------------------------------------------------------------------
// Configuration
// ---------------------------------------------------------------------------

/// What is observed.
#[derive(Debug, Clone)]
pub struct ObserverConfig {
    pub enabled: bool,
    pub kind: String,
}

/// The background tasks.
#[derive(Debug, Clone)]
pub struct HeartbeatConfig {
    pub enabled: bool,
    pub interval_secs: u64,
    pub tasks: Vec<String>,
}

/// The language model; ratios are given in thousandths.
#[derive(Debug, Clone)]
pub struct ModelConfig {
    pub provider: String,
    pub model: String,
    pub api_key: String,
    pub base_url: String,
    pub max_tokens: i32,
    pub temperature_permille: u32,
    pub top_p_permille: u32,
    pub extra_headers: Vec<(String, String)>,
    pub timeout: u64,
}

/// The long-term memory.
#[derive(Debug, Clone)]
pub struct MemoryConfig {
    pub enabled: bool,
    pub semantic_search_top_k: usize,
    pub episodic_summary_threshold: usize,
    pub provider: String,
    pub hybrid_search: bool,
}

/// The memory files.
#[derive(Debug, Clone)]
pub struct FileMemoryConfig {
    pub enabled: bool,
    pub memory_char_limit: usize,
    pub user_char_limit: usize,
}

/// The compression of long conversations; ratios are given in thousandths.
#[derive(Debug, Clone)]
pub struct CompressionConfig {
    pub enabled: bool,
    pub threshold_permille: u32,
    pub protect_first_n: usize,
    pub protect_last_n: usize,
    pub summary_target_permille: u32,
}

/// The review of conversations for facts worth keeping.
#[derive(Debug, Clone)]
pub struct ReviewConfig {
    pub enabled: bool,
    pub interval: usize,
    pub window_size: usize,
    pub max_tokens: i32,
    pub model_override: Option<String>,
}

/// A server of the Model Context Protocol.
#[derive(Debug, Clone)]
pub struct McpServerConfig {
    pub command: Option<String>,
    pub args: Option<Vec<String>>,
    pub url: Option<String>,
    pub env: Vec<(String, String)>,
    pub headers: Vec<(String, String)>,
    pub timeout: u64,
    pub connect_timeout: u64,
    /// `stdio`, `http` or `streamable-http`; empty where it follows from the rest.
    pub transport_type: String,
}

/// The skills.
#[derive(Debug, Clone)]
pub struct SkillsConfig {
    pub enabled: bool,
    pub auto_create: bool,
    pub external_dirs: Vec<String>,
}

/// The behaviour of the agent.
#[derive(Debug, Clone)]
pub struct AgentBehaviorConfig {
    pub max_iterations: usize,
    pub enable_reasoning: bool,
}

/// The whole configuration.
#[derive(Debug, Clone)]
pub struct AgentConfig {
    pub model: ModelConfig,
    pub memory: MemoryConfig,
    pub mcp_servers: Vec<(String, McpServerConfig)>,
    pub skills: SkillsConfig,
    pub agent: AgentBehaviorConfig,
    pub observer: ObserverConfig,
    pub heartbeat: HeartbeatConfig,
    pub file_memory: FileMemoryConfig,
    pub compression: CompressionConfig,
    pub review: ReviewConfig,
}

/// The description of a skill; times are texts in the form of RFC 3339.
#[derive(Debug, Clone)]
pub struct SkillManifest {
    pub name: String,
    pub description: String,
    pub version: String,
    pub author: String,
    pub tags: Vec<String>,
    pub triggers: Vec<String>,
    pub system_prompt_patch: Option<String>,
    pub mcp_server: Option<McpServerConfig>,
    pub created_at: Option<String>,
    pub updated_at: Option<String>,
    pub usage_count: u64,
}

impl Default for FileMemoryConfig {
    fn default() -> (r: Self)
        ensures
            r.enabled,
            r.memory_char_limit == 2200,
            r.user_char_limit == 1375,
    {
        FileMemoryConfig {
            enabled: default_file_memory_enabled(),
            memory_char_limit: default_memory_char_limit(),
            user_char_limit: default_user_char_limit(),
        }
    }
}

impl Default for CompressionConfig {
    fn default() -> (r: Self)
        ensures
            r.enabled,
            r.threshold_permille == 500,
            r.protect_first_n == 3,
            r.protect_last_n == 20,
            r.summary_target_permille == 200,
    {
        CompressionConfig {
            enabled: default_compression_enabled(),
            threshold_permille: 500,
            protect_first_n: default_compression_protect_first(),
            protect_last_n: default_compression_protect_last(),
            summary_target_permille: 200,
        }
    }
}

impl Default for ReviewConfig {
    fn default() -> (r: Self)
        ensures
            r.enabled,
            r.interval == 10,
            r.window_size == 8,
            r.max_tokens == 2048,
            r.model_override is None,
    {
        ReviewConfig {
            enabled: default_review_enabled(),
            interval: default_review_interval(),
            window_size: default_review_window_size(),
            max_tokens: default_review_max_tokens(),
            model_override: None,
        }
    }
}

impl Default for ObserverConfig {
    fn default() -> (r: Self)
        ensures
            !r.enabled,
            r.kind@ == Seq::<char>::empty(),
    {
        ObserverConfig { enabled: false, kind: String::new() }
    }
}

impl Default for HeartbeatConfig {
    fn default() -> (r: Self)
        ensures
            !r.enabled,
            r.interval_secs == 0,
            r.tasks@.len() == 0,
    {
        HeartbeatConfig { enabled: false, interval_secs: 0, tasks: Vec::new() }
    }
}

impl Default for SkillsConfig {
    fn default() -> (r: Self)
        ensures
            !r.enabled,
            !r.auto_create,
            r.external_dirs@.len() == 0,
    {
        SkillsConfig { enabled: false, auto_create: false, external_dirs: Vec::new() }
    }
}

impl McpServerConfig {
    /// Whether the server speaks the streamable HTTP transport.
    pub fn is_streamable_http(&self) -> (r: bool)
        ensures
            r == text::same_ignoring_case(self.transport_type@, "streamable-http"@),
    {
        text::eq_ignore_case(self.transport_type.as_str(), "streamable-http")
    }
}

// ---------------------------------------------------------------------------
// Defaults of single settings
// ---------------------------------------------------------------------------

pub fn default_base_url() -> (r: String)
    ensures
        r@ == "https://api.openai.com/v1"@,
{
    "https://api.openai.com/v1".to_owned()
}

pub fn default_max_tokens() -> (r: i32)
    ensures
        r == 4096,
{
    4096
}

pub fn default_memory_enabled() -> (r: bool)
    ensures
        r,
{
    true
}

pub fn default_semantic_search_top_k() -> (r: usize)
    ensures
        r == 5,
{
    5
}

pub fn default_episodic_summary_threshold() -> (r: usize)
    ensures
        r == 10,
{
    10
}

pub fn default_mcp_timeout() -> (r: u64)
    ensures
        r == 120,
{
    120
}

pub fn default_mcp_connect_timeout() -> (r: u64)
    ensures
        r == 60,
{
    60
}

pub fn default_max_iterations() -> (r: usize)
    ensures
        r == 30,
{
    30
}

pub fn default_enable_reasoning() -> (r: bool)
    ensures
        r,
{
    true
}

pub fn default_timeout() -> (r: u64)
    ensures
        r == 120,
{
    120
}

pub fn default_memory_provider() -> (r: String)
    ensures
        r@ == "builtin"@,
{
    "builtin".to_owned()
}

pub fn default_hybrid_search() -> (r: bool)
    ensures
        r,
{
    true
}

pub fn default_observer_enabled() -> (r: bool)
    ensures
        r,
{
    true
}

pub fn default_observer_kind() -> (r: String)
    ensures
        r@ == "log"@,
{
    "log".to_owned()
}

pub fn default_heartbeat_enabled() -> (r: bool)
    ensures
        !r,
{
    false
}

pub fn default_heartbeat_interval() -> (r: u64)
    ensures
        r == 3600,
{
    3600
}

pub fn default_file_memory_enabled() -> (r: bool)
    ensures
        r,
{
    true
}

pub fn default_memory_char_limit() -> (r: usize)
    ensures
        r == 2200,
{
    2200
}

pub fn default_user_char_limit() -> (r: usize)
    ensures
        r == 1375,
{
    1375
}

pub fn default_compression_enabled() -> (r: bool)
    ensures
        r,
{
    true
}

pub fn default_compression_protect_first() -> (r: usize)
    ensures
        r == 3,
{
    3
}

pub fn default_compression_protect_last() -> (r: usize)
    ensures
        r == 20,
{
    20
}

pub fn default_review_enabled() -> (r: bool)
    ensures
        r,
{
    true
}

pub fn default_review_interval() -> (r: usize)
    ensures
        r == 10,
{
    10
}

pub fn default_review_window_size() -> (r: usize)
    ensures
        r == 8,
{
    8
}

pub fn default_review_max_tokens() -> (r: i32)
    ensures
        r == 2048,
{
    2048
}

// ---------------------------------------------------------------------------
// Laws
// ---------------------------------------------------------------------------

/// The plain data of a message tells all that is in it.
pub proof fn law_messages_are_viewed_in_full(m: Message, i: int)
    ensures
        m@.role == m.role,
        m.content matches Some(s) ==> m@.content == Some(s@),
        m.content is None ==> m@.content is None,
        m.tool_call_id matches Some(s) ==> m@.tool_call_id == Some(s@),
        m.tool_call_id is None ==> m@.tool_call_id is None,
        m.name matches Some(s) ==> m@.name == Some(s@),
        m.name is None ==> m@.name is None,
        m.reasoning matches Some(s) ==> m@.reasoning == Some(s@),
        m.reasoning is None ==> m@.reasoning is None,
        m.tool_calls is None <==> m@.tool_calls is None,
        m.tool_calls matches Some(v) ==> m@.tool_calls->0.len() == v@.len(),
        m.tool_calls matches Some(v) ==> 0 <= i < v@.len() ==> {
            &&& m@.tool_calls->0[i].id == v@[i].id@
            &&& m@.tool_calls->0[i].call_type == v@[i].call_type@
            &&& m@.tool_calls->0[i].name == v@[i].function.name@
            &&& m@.tool_calls->0[i].arguments == v@[i].function.arguments@
        },
{
}

/// A message is made of what it is given and nothing else; the one that answers a call says which
/// call, and of which tool.
pub proof fn law_messages_are_as_given(
    role: MessageRole,
    id: Seq<char>,
    name: Seq<char>,
    content: Seq<char>,
)
    ensures
        ({
            let m = plain_message(role, content);
            &&& m.role == role && m.content == Some(content)
            &&& m.tool_calls is None && m.tool_call_id is None && m.name is None
            &&& m.reasoning is None
        }),
        ({
            let m = tool_message(id, name, content);
            &&& m.role == MessageRole::Tool && m.content == Some(content)
            &&& m.tool_call_id == Some(id) && m.name == Some(name)
            &&& m.tool_calls is None && m.reasoning is None
        }),
        text_or_empty(Some(content)) == content,
        text_or_empty(None).len() == 0,
{
}

} // verus!
