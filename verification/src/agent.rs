//! The agent: its budget, its sessions, and the turns of a conversation.
//!
//! A turn goes through phases. It asks the model; a reply with tool calls has each call checked by
//! hooks, carried out and checked again, and is followed by the next request; a reply without any
//! ends the turn. What is asked for outside comes back as an argument of the next step.

use crate::bytes;
use crate::compression;
use crate::hooks::HookResult;
use crate::identity;
use crate::identity::Identity;
use crate::json;
use crate::json::{Json, JsonView};
use crate::llm::Usage;
use crate::memory;
use crate::models;
use crate::models::{Message, MessageRole, MessageView, ToolCall, ToolCallView};
use crate::observer::Event;
use crate::text;
use crate::tool;
use crate::tool::ToolOutput;
use crate::tool_registry;
use crate::tool_registry::{ToolEntry, ToolRegistry};
use vstd::prelude::*;

verus! {

// ---------------------------------------------------------------------------
// The budget
// ---------------------------------------------------------------------------

/// How many requests may be made, and how many have been.
#[derive(Debug, Clone, Copy)]
pub struct IterationBudget {
    pub max_total: usize,
    pub used: usize,
}

/// The budget after one was used, if there was one left.
pub open spec fn consumed(b: IterationBudget) -> IterationBudget {
    if b.used < b.max_total {
        IterationBudget { max_total: b.max_total, used: (b.used + 1) as usize }
    } else {
        b
    }
}

/// The budget after one was given back, if one was used.
pub open spec fn refunded(b: IterationBudget) -> IterationBudget {
    if b.used > 0 {
        IterationBudget { max_total: b.max_total, used: (b.used - 1) as usize }
    } else {
        b
    }
}

impl IterationBudget {
    /// No more was used than there is.
    pub open spec fn wf(&self) -> bool {
        self.used <= self.max_total
    }

    /// How much is left.
    pub open spec fn left(&self) -> int {
        if self.used <= self.max_total {
            self.max_total - self.used
        } else {
            0
        }
    }

    /// A budget of which nothing was used.
    pub fn new(max: usize) -> (r: Self)
        ensures
            r.max_total == max,
            r.used == 0,
            r.wf(),
    {
        IterationBudget { max_total: max, used: 0 }
    }

    /// Uses one, if there is one left.
    pub fn consume(&mut self) -> (r: bool)
        ensures
            r == (old(self).used < old(self).max_total),
            *final(self) == consumed(*old(self)),
            old(self).wf() ==> final(self).wf(),
    {
        if self.used < self.max_total {
            self.used = self.used + 1;
            true
        } else {
            false
        }
    }

    /// Gives one back, if one was used.
    pub fn refund(&mut self)
        ensures
            *final(self) == refunded(*old(self)),
            old(self).wf() ==> final(self).wf(),
    {
        if self.used > 0 {
            self.used = self.used - 1;
        }
    }

    /// How much is left.
    pub fn remaining(&self) -> (r: usize)
        ensures
            r == self.left(),
    {
        if self.used <= self.max_total {
            self.max_total - self.used
        } else {
            0
        }
    }
}

// ---------------------------------------------------------------------------
// The agent
// ---------------------------------------------------------------------------

/// The state of an agent between two turns.
#[derive(Debug)]
pub struct Agent {
    pub model: String,
    pub session_id: String,
    pub max_iterations: usize,
    pub system_prompt: String,
    pub conversation_history: Vec<Message>,
    pub turn_count: usize,
    pub api_call_count: usize,
    pub iteration_budget: IterationBudget,
    /// A grace call is granted before the budget is used up.
    pub budget_grace_call: bool,
    /// The grace call has been made.
    pub grace_call_used: bool,
    pub compression_enabled: bool,
    pub max_context_tokens: usize,
}

/// The character is a hexadecimal digit, letters in small.
pub open spec fn hex_digit(c: char) -> bool {
    '0' <= c <= '9' || 'a' <= c <= 'f'
}

/// The text is written like a random UUID: 32 hexadecimal digits in five groups, the third of
/// which begins with 4 and the fourth with 8, 9, a or b.
pub open spec fn uuid_shape(s: Seq<char>) -> bool {
    &&& s.len() == 36
    &&& s[8] == '-' && s[13] == '-' && s[18] == '-' && s[23] == '-'
    &&& s[14] == '4'
    &&& s[19] == '8' || s[19] == '9' || s[19] == 'a' || s[19] == 'b'
    &&& forall|i: int| #![trigger s[i]]
        0 <= i < 36 && i != 8 && i != 13 && i != 18 && i != 23 ==> hex_digit(s[i])
}

/// Calls `uuid::Uuid::new_v4` and writes it out. The result is random; whatever it is, it has the
/// shape of a random UUID.
#[verifier::external_body]
fn random_id() -> (r: String)
    ensures
        uuid_shape(r@),
{
    uuid::Uuid::new_v4().to_string()
}

/// The count and the budget allow one more request.
pub open spec fn within_budget(a: Agent) -> bool {
    a.api_call_count < a.max_iterations && a.iteration_budget.left() > 0
}

/// The grace call is still to be had.
pub open spec fn grace_left(a: Agent) -> bool {
    a.budget_grace_call || !a.grace_call_used
}

/// Whether the agent may ask the model once more: the count and the budget allow it, or there is
/// the grace call.
pub open spec fn may_call(a: Agent) -> bool {
    within_budget(a) || grace_left(a)
}

/// The next request is the grace call: it was granted, or nothing else is left.
pub open spec fn grace_is_next(a: Agent) -> bool {
    a.budget_grace_call || (!within_budget(a) && !a.grace_call_used)
}

/// The agent after it has asked the model: the grace call costs nothing, and there is one.
pub open spec fn after_call(a: Agent) -> Agent {
    if grace_is_next(a) {
        Agent {
            api_call_count: (a.api_call_count + 1) as usize,
            budget_grace_call: false,
            grace_call_used: true,
            ..a
        }
    } else {
        Agent {
            api_call_count: (a.api_call_count + 1) as usize,
            iteration_budget: consumed(a.iteration_budget),
            ..a
        }
    }
}

/// How many requests are left, the grace call among them.
pub open spec fn calls_left(a: Agent) -> int {
    let by_count = if a.api_call_count < a.max_iterations {
        a.max_iterations - a.api_call_count
    } else {
        0
    };
    let by_budget = if by_count < a.iteration_budget.left() {
        by_count
    } else {
        a.iteration_budget.left()
    };
    if grace_left(a) {
        by_budget + 1
    } else {
        by_budget
    }
}

/// How many requests a turn makes if the model gives those replies, one after the other: it goes
/// on as long as it may and the replies call tools.
pub open spec fn requests_made(a: Agent, replies: Seq<MessageView>) -> int
    decreases replies.len(),
{
    if replies.len() == 0 || !may_call(a) {
        0
    } else if calls_tools(replies[0]) {
        1 + requests_made(after_call(a), replies.drop_first())
    } else {
        1
    }
}

/// The most messages that a conversation keeps.
pub const MAX_HISTORY: usize = 50;

/// What is kept of a conversation: its last messages, and the system message at its beginning.
pub open spec fn capped(ms: Seq<MessageView>) -> Seq<MessageView> {
    if ms.len() <= MAX_HISTORY {
        ms
    } else if ms[0].role == MessageRole::System {
        seq![ms[0]] + ms.skip(ms.len() - (MAX_HISTORY - 1))
    } else {
        ms.skip(ms.len() - MAX_HISTORY)
    }
}

/// The messages that a turn begins with.
pub open spec fn opening(
    history: Seq<MessageView>,
    system_prompt: Seq<char>,
    user_message: Seq<char>,
) -> Seq<MessageView> {
    let start = if history.len() == 0 && system_prompt.len() > 0 {
        seq![models::plain_message(MessageRole::System, system_prompt)]
    } else {
        history
    };
    start.push(models::plain_message(MessageRole::User, user_message))
}

fn cap_history(list: &Vec<Message>) -> (r: Vec<Message>)
    ensures
        models::messages(r@) == capped(models::messages(list@)),
{
    let ghost ms = models::messages(list@);
    let n: usize = list.len();
    if n <= MAX_HISTORY {
        let all: Vec<Message> = models::copy_messages(list, 0, n);
        assert(ms.subrange(0, n as int) =~= ms);
        return all;
    }
    if list[0].role == MessageRole::System {
        let mut out: Vec<Message> = Vec::new();
        out.push(list[0].clone());
        assert(models::messages(out@) =~= seq![ms[0]]);
        let ghost head = out@;
        let mut rest: Vec<Message> = models::copy_messages(list, n - (MAX_HISTORY - 1), n);
        let ghost tail = rest@;
        out.append(&mut rest);
        proof {
            assert(models::messages(out@) =~= models::messages(head) + models::messages(tail));
            assert(ms.subrange(n - (MAX_HISTORY - 1), n as int) =~= ms.skip(
                n - (MAX_HISTORY - 1),
            ));
        }
        out
    } else {
        let out: Vec<Message> = models::copy_messages(list, n - MAX_HISTORY, n);
        assert(ms.subrange(n - MAX_HISTORY, n as int) =~= ms.skip(n - MAX_HISTORY));
        out
    }
}

impl Agent {
    /// The settings are the same, and all that changes in a turn but the counters.
    pub open spec fn same_settings(&self, other: &Self) -> bool {
        &&& self.model == other.model
        &&& self.max_iterations == other.max_iterations
        &&& self.system_prompt == other.system_prompt
        &&& self.compression_enabled == other.compression_enabled
        &&& self.max_context_tokens == other.max_context_tokens
        &&& self.iteration_budget.max_total == other.iteration_budget.max_total
    }

    /// An agent in a session with that identifier.
    pub fn with_session_id(
        model: &str,
        session_id: String,
        max_iterations: usize,
        compression_enabled: bool,
        max_context_tokens: usize,
    ) -> (r: Self)
        ensures
            r.model@ == model@,
            r.session_id == session_id,
            r.max_iterations == max_iterations,
            r.system_prompt@ == Seq::<char>::empty(),
            r.conversation_history@.len() == 0,
            r.turn_count == 0,
            r.api_call_count == 0,
            r.iteration_budget.max_total == max_iterations,
            r.iteration_budget.used == 0,
            !r.budget_grace_call,
            !r.grace_call_used,
            r.compression_enabled == compression_enabled,
            r.max_context_tokens == max_context_tokens,
    {
        Agent {
            model: model.to_owned(),
            session_id,
            max_iterations,
            system_prompt: String::new(),
            conversation_history: Vec::new(),
            turn_count: 0,
            api_call_count: 0,
            iteration_budget: IterationBudget::new(max_iterations),
            budget_grace_call: false,
            grace_call_used: false,
            compression_enabled,
            max_context_tokens,
        }
    }

    /// An agent in a session with a random identifier.
    pub fn new(
        model: &str,
        max_iterations: usize,
        compression_enabled: bool,
        max_context_tokens: usize,
    ) -> (r: Self)
        ensures
            uuid_shape(r.session_id@),
            r.model@ == model@,
            r.max_iterations == max_iterations,
            r.system_prompt@ == Seq::<char>::empty(),
            r.conversation_history@.len() == 0,
            r.turn_count == 0,
            r.api_call_count == 0,
            r.iteration_budget.max_total == max_iterations,
            r.iteration_budget.used == 0,
            !r.budget_grace_call,
            !r.grace_call_used,
            r.compression_enabled == compression_enabled,
            r.max_context_tokens == max_context_tokens,
    {
        Self::with_session_id(
            model,
            random_id(),
            max_iterations,
            compression_enabled,
            max_context_tokens,
        )
    }

    /// Sets the prompt that a conversation begins with.
    pub fn set_system_prompt(&mut self, prompt: String)
        ensures
            *final(self) == (Agent { system_prompt: prompt, ..*old(self) }),
    {
        self.system_prompt = prompt;
    }

    /// The event that a session has begun.
    pub fn emit_session_start(&self) -> (r: Event)
        ensures
            r matches Event::SessionStart { session_id } && session_id@ == self.session_id@,
    {
        Event::SessionStart { session_id: self.session_id.clone() }
    }

    /// The event that a session has ended.
    pub fn emit_session_end(&self) -> (r: Event)
        ensures
            r matches Event::SessionEnd { session_id } && session_id@ == self.session_id@,
    {
        Event::SessionEnd { session_id: self.session_id.clone() }
    }

    /// Goes over to a session with that identifier: the conversation and all counters start
    /// again, the settings stay.
    pub fn reset_session(&mut self, session_id: String)
        ensures
            final(self).same_settings(old(self)),
            final(self).session_id == session_id,
            final(self).conversation_history@.len() == 0,
            final(self).turn_count == 0,
            final(self).api_call_count == 0,
            final(self).iteration_budget.used == 0,
            !final(self).budget_grace_call,
            !final(self).grace_call_used,
    {
        self.session_id = session_id;
        self.conversation_history = Vec::new();
        self.turn_count = 0;
        self.api_call_count = 0;
        self.iteration_budget = IterationBudget::new(self.iteration_budget.max_total);
        self.budget_grace_call = false;
        self.grace_call_used = false;
    }

    /// Goes over to a session with a random identifier.
    pub fn new_session(&mut self)
        ensures
            final(self).same_settings(old(self)),
            uuid_shape(final(self).session_id@),
            final(self).conversation_history@.len() == 0,
            final(self).turn_count == 0,
            final(self).api_call_count == 0,
            final(self).iteration_budget.used == 0,
            !final(self).budget_grace_call,
            !final(self).grace_call_used,
    {
        let id: String = random_id();
        self.reset_session(id);
    }

    /// Begins a turn: the conversation so far, and the message of the user.
    pub fn begin_turn(&self, user_message: &str) -> (r: Turn)
        ensures
            r.user_message@ == user_message@,
            models::messages(r.messages@) == opening(
                models::messages(self.conversation_history@),
                self.system_prompt@,
                user_message@,
            ),
            ({
                let history = models::messages(self.conversation_history@);
                let ms = models::messages(r.messages@);
                &&& history.len() > 0 ==> ms.drop_last() == history
                &&& ms.last().role == MessageRole::User
                &&& ms.last().content == Some(user_message@)
            }),
            r.response@ == Seq::<char>::empty(),
            r.usage is None,
            r.base == 0,
            r.phase == Phase::Ready,
            r.wf(),
    {
        let n: usize = self.conversation_history.len();
        let ghost history = models::messages(self.conversation_history@);
        let mut messages: Vec<Message> = models::copy_messages(&self.conversation_history, 0, n);
        assert(history.subrange(0, n as int) =~= history);
        if n == 0 && self.system_prompt.as_str().unicode_len() > 0 {
            messages.push(Message::system(self.system_prompt.as_str()));
            assert(models::messages(messages@) =~= seq![
                models::plain_message(MessageRole::System, self.system_prompt@),
            ]);
        }
        let ghost start = models::messages(messages@);
        messages.push(Message::user(user_message));
        proof {
            assert(models::messages(messages@) =~= start.push(
                models::plain_message(MessageRole::User, user_message@),
            ));
            if n > 0 {
                assert(models::messages(messages@).drop_last() =~= history);
            }
        }
        Turn {
            user_message: user_message.to_owned(),
            messages,
            response: String::new(),
            usage: None,
            base: 0,
            rejected: Vec::new(),
            valid: Vec::new(),
            next: 0,
            phase: Phase::Ready,
        }
    }

    /// The event that a turn has begun.
    pub fn turn_start_event(&self, user_message: &str) -> (r: Event)
        ensures
            r matches Event::TurnStart { turn_number, user_message_preview } && turn_number
                == self.turn_count && user_message_preview@ == user_message@,
    {
        Event::TurnStart {
            turn_number: self.turn_count,
            user_message_preview: user_message.to_owned(),
        }
    }

    /// Decides whether the model is asked once more, and pays for it. When the count or the budget
    /// is used up there is one grace call, which costs nothing; one that was granted before is
    /// made first.
    pub fn next_call(&mut self, turn: &mut Turn) -> (r: bool)
        requires
            old(turn).wf(),
            old(turn).phase == Phase::Ready,
            grace_is_next(*old(self)) ==> old(self).api_call_count < usize::MAX,
        ensures
            r == may_call(*old(self)),
            r == (calls_left(*old(self)) > 0),
            final(turn).wf(),
            *final(turn) == (Turn {
                phase: if r {
                    Phase::Asked
                } else {
                    Phase::Finished
                },
                ..*old(turn)
            }),
            *final(self) == if r {
                after_call(*old(self))
            } else {
                *old(self)
            },
            r ==> calls_left(*final(self)) < calls_left(*old(self)),
            r && !old(self).budget_grace_call ==> calls_left(*final(self)) == calls_left(
                *old(self),
            ) - 1,
    {
        let allowed: bool = self.api_call_count < self.max_iterations
            && self.iteration_budget.remaining() > 0;
        if self.budget_grace_call || (!allowed && !self.grace_call_used) {
            self.budget_grace_call = false;
            self.grace_call_used = true;
        } else if !allowed || !self.iteration_budget.consume() {
            turn.phase = Phase::Finished;
            return false;
        }
        self.api_call_count = self.api_call_count + 1;
        turn.phase = Phase::Asked;
        true
    }

    /// The event that the model is asked.
    pub fn request_event(&self, messages_count: usize, tools_count: usize) -> (r: Event)
        ensures
            r matches Event::LlmRequest { model, messages_count: m, tools_count: t } && model@
                == self.model@ && m == messages_count && t == tools_count,
    {
        Event::LlmRequest { model: self.model.clone(), messages_count, tools_count }
    }

    /// The event that the model has answered; none where it did not say what that took.
    pub fn response_event(&self, usage: Option<Usage>, latency_ms: u64) -> (r: Option<Event>)
        ensures
            match usage {
                Some(u) => r matches Some(
                    Event::LlmResponse {
                        model,
                        prompt_tokens,
                        completion_tokens,
                        latency_ms: l,
                    },
                ) && model@ == self.model@ && prompt_tokens == u.prompt_tokens
                    && completion_tokens == u.completion_tokens && l == latency_ms,
                None => r is None,
            },
    {
        match usage {
            Some(u) => Some(
                Event::LlmResponse {
                    model: self.model.clone(),
                    prompt_tokens: u.prompt_tokens,
                    completion_tokens: u.completion_tokens,
                    latency_ms,
                },
            ),
            None => None,
        }
    }

    /// The estimated number of tokens of a conversation.
    pub fn estimate_context_tokens(list: &Vec<Message>) -> (r: usize)
        ensures
            r == compression::bounded_estimate(models::messages(list@)),
    {
        compression::estimate(list)
    }

    /// The estimated number of tokens of a conversation that has used up more than half of the
    /// context; none where it has not, or where compression is off.
    pub fn context_warning(&self, list: &Vec<Message>) -> (r: Option<usize>)
        ensures
            ({
                let tokens = compression::bounded_estimate(models::messages(list@));
                match r {
                    Some(n) => self.compression_enabled && n == tokens && tokens
                        > self.max_context_tokens / 2,
                    None => !self.compression_enabled || tokens <= self.max_context_tokens / 2,
                }
            }),
    {
        if !self.compression_enabled {
            return None;
        }
        let tokens: usize = Self::estimate_context_tokens(list);
        if tokens > self.max_context_tokens / 2 {
            Some(tokens)
        } else {
            None
        }
    }

    /// Ends a turn: keeps the conversation, within bounds, and counts the turn. Gives the event
    /// that tells of it.
    pub fn end_turn(&mut self, turn: &Turn) -> (r: Event)
        requires
            turn.phase == Phase::Finished,
            old(self).turn_count < usize::MAX,
        ensures
            final(self).same_settings(old(self)),
            final(self).session_id == old(self).session_id,
            final(self).api_call_count == old(self).api_call_count,
            final(self).iteration_budget == old(self).iteration_budget,
            final(self).budget_grace_call == old(self).budget_grace_call,
            final(self).grace_call_used == old(self).grace_call_used,
            final(self).turn_count == old(self).turn_count + 1,
            models::messages(final(self).conversation_history@) == capped(
                models::messages(turn.messages@),
            ),
            r matches Event::TurnComplete { turn_number, api_calls, total_tokens } && turn_number
                == old(self).turn_count + 1 && api_calls == old(self).api_call_count
                && total_tokens == match turn.usage {
                Some(u) => u.total_tokens,
                None => 0i32,
            },
    {
        self.turn_count = self.turn_count + 1;
        self.conversation_history = cap_history(&turn.messages);
        let total_tokens: i32 = match turn.usage {
            Some(u) => u.total_tokens,
            None => 0,
        };
        Event::TurnComplete {
            turn_number: self.turn_count,
            api_calls: self.api_call_count,
            total_tokens,
        }
    }
}

// ---------------------------------------------------------------------------
// A turn
// ---------------------------------------------------------------------------

/// What a turn waits for.
#[derive(Debug, Clone, Copy, PartialEq, Eq, Structural)]
pub enum Phase {
    /// The decision whether the model is asked.
    Ready,
    /// The reply of the model.
    Asked,
    /// What the hooks say of the next tool call.
    Before,
    /// The result of the tool.
    Executing,
    /// What the hooks say of that result.
    After,
    /// Nothing: the turn is over.
    Finished,
}

/// A turn that is under way.
#[derive(Debug)]
pub struct Turn {
    pub user_message: String,
    pub messages: Vec<Message>,
    /// The final answer, once there is one.
    pub response: String,
    pub usage: Option<Usage>,
    /// Where the last reply with tool calls stands in the messages; 0 where there was none.
    pub base: usize,
    /// The calls of that reply that name no tool.
    pub rejected: Vec<ToolCall>,
    /// The other calls of that reply.
    pub valid: Vec<ToolCall>,
    /// How many of those have been answered.
    pub next: usize,
    pub phase: Phase,
}

/// What is to be told of a tool call that is over.
#[derive(Debug)]
pub struct ToolReport {
    pub name: String,
    pub success: bool,
    pub output_len: usize,
}

/// The report tells of that tool.
pub open spec fn reports(r: ToolReport, name: Seq<char>, success: bool, output: Seq<char>) -> bool {
    &&& r.name@ == name
    &&& r.success == success
    &&& r.output_len == bytes::byte_len(output)
}

/// The names that are registered.
pub open spec fn names_in<T>(s: Seq<ToolEntry<T>>) -> Set<Seq<char>> {
    Set::new(|n: Seq<char>| tool_registry::registered(s, n))
}

/// The calls whose name is, or is not, one of the names, in order.
pub open spec fn calls_named(cs: Seq<ToolCallView>, names: Set<Seq<char>>, known: bool) -> Seq<
    ToolCallView,
>
    decreases cs.len(),
{
    if cs.len() == 0 {
        Seq::empty()
    } else {
        let rest = calls_named(cs.drop_last(), names, known);
        if names.contains(cs.last().name) == known {
            rest.push(cs.last())
        } else {
            rest
        }
    }
}

/// The identifiers of calls.
pub open spec fn ids(cs: Seq<ToolCallView>) -> Seq<Seq<char>> {
    Seq::new(cs.len(), |i: int| cs[i].id)
}

/// The identifiers that messages answer.
pub open spec fn answered_ids(ms: Seq<MessageView>) -> Seq<Option<Seq<char>>> {
    Seq::new(ms.len(), |i: int| ms[i].tool_call_id)
}

/// The same identifiers, none of them missing.
pub open spec fn some_ids(s: Seq<Seq<char>>) -> Seq<Option<Seq<char>>> {
    Seq::new(s.len(), |i: int| Some(s[i]))
}

/// The answer to a call that names no tool.
pub open spec fn rejection(c: ToolCallView) -> MessageView {
    models::tool_message(
        c.id,
        c.name,
        "Tool '"@ + c.name
            + "' does not exist. Available: check skills_list or use built-in tools."@,
    )
}

/// The answers to calls that name no tool.
pub open spec fn rejections(cs: Seq<ToolCallView>) -> Seq<MessageView> {
    Seq::new(cs.len(), |i: int| rejection(cs[i]))
}

/// The message calls tools.
pub open spec fn calls_tools(m: MessageView) -> bool {
    m.tool_calls is Some && m.tool_calls->0.len() > 0
}

/// Every message comes from a tool.
pub open spec fn all_from_tools(ms: Seq<MessageView>) -> bool {
    forall|i: int| #![trigger ms[i]] 0 <= i < ms.len() ==> ms[i].role == MessageRole::Tool
}

/// A reply with tool calls as it goes into the conversation: an empty content is left out.
pub open spec fn calling_message(reply: MessageView) -> MessageView {
    MessageView {
        content: match reply.content {
            Some(c) => if c.len() > 0 {
                Some(c)
            } else {
                None
            },
            None => None,
        },
        ..reply
    }
}

/// The tokens of a reply can be added to those so far.
pub open spec fn usage_fits(total: Option<Usage>, usage: Option<Usage>) -> bool {
    match (total, usage) {
        (Some(t), Some(u)) => {
            &&& i32::MIN <= u.prompt_tokens + t.prompt_tokens <= i32::MAX
            &&& i32::MIN <= u.completion_tokens + t.completion_tokens <= i32::MAX
            &&& i32::MIN <= u.total_tokens + t.total_tokens <= i32::MAX
        },
        _ => true,
    }
}

/// What all requests of a turn took.
pub open spec fn usage_sum(total: Option<Usage>, usage: Option<Usage>) -> Option<Usage> {
    match (total, usage) {
        (Some(t), Some(u)) => Some(
            Usage {
                prompt_tokens: (u.prompt_tokens + t.prompt_tokens) as i32,
                completion_tokens: (u.completion_tokens + t.completion_tokens) as i32,
                total_tokens: (u.total_tokens + t.total_tokens) as i32,
            },
        ),
        (None, Some(u)) => Some(u),
        (t, None) => t,
    }
}

/// The last position at which the user speaks, before `end`.
pub open spec fn last_user(ms: Seq<MessageView>, end: int) -> Option<int>
    decreases end,
{
    if end <= 0 || end > ms.len() {
        None
    } else if ms[end - 1].role == MessageRole::User {
        Some(end - 1)
    } else {
        last_user(ms, end - 1)
    }
}

/// The messages with a block of memories behind the last thing that the user said.
pub open spec fn with_memory(ms: Seq<MessageView>, block: Seq<char>) -> Seq<MessageView> {
    match last_user(ms, ms.len() as int) {
        Some(i) => match ms[i].content {
            Some(c) => if block.len() > 0 {
                ms.update(i, MessageView { content: Some(c + "\n\n"@ + block), ..ms[i] })
            } else {
                ms
            },
            None => ms,
        },
        None => ms,
    }
}

/// The arguments of a call from what was read of their text: an empty object where there are
/// none, or where they could not be read.
pub open spec fn arguments_from(text_empty: bool, read: Option<JsonView>) -> JsonView {
    match read {
        Some(j) => if text_empty {
            JsonView::Object(Seq::empty())
        } else {
            j
        },
        None => JsonView::Object(Seq::empty()),
    }
}

/// The arguments of a call.
pub open spec fn arguments_of(arguments: Seq<char>) -> JsonView {
    arguments_from(text::trimmed(arguments).len() == 0, json::parsed(arguments))
}

/// The arguments of a call from what was read of their text.
pub fn arguments_or_empty(text_empty: bool, read: Option<Json>) -> (r: Json)
    ensures
        r@ == arguments_from(text_empty, json::opt_model(read)),
{
    match read {
        Some(j) => if text_empty {
            let none: Json = Json::Object(Vec::new());
            assert(none@->Object_0 =~= Seq::empty());
            none
        } else {
            j
        },
        None => {
            let none: Json = Json::Object(Vec::new());
            assert(none@->Object_0 =~= Seq::empty());
            none
        },
    }
}

/// The arguments of a call.
pub fn call_arguments(call: &ToolCall) -> (r: Json)
    ensures
        r@ == arguments_of(call@.arguments),
{
    let arguments: &str = call.function.arguments.as_str();
    let text_empty: bool = text::trim(arguments).unicode_len() == 0;
    arguments_or_empty(text_empty, json::parse(arguments))
}

impl Turn {
    /// The calls of the last reply are all there, each either rejected or valid, and they have
    /// been answered by tools up to the next one, in this order and by nothing else.
    pub open spec fn round_kept(&self) -> bool {
        let ms = models::messages(self.messages@);
        let rejected = models::calls(self.rejected@);
        let valid = models::calls(self.valid@);
        &&& self.base < ms.len()
        &&& ms[self.base as int].tool_calls is Some
        &&& ids(rejected + valid).to_multiset() == ids(
            ms[self.base as int].tool_calls->0,
        ).to_multiset()
        &&& answered_ids(ms.skip(self.base + 1)) == some_ids(
            ids(rejected + valid.take(self.next as int)),
        )
        &&& all_from_tools(ms.skip(self.base + 1))
    }

    /// The turn is in a state that its phase stands for.
    pub open spec fn wf(&self) -> bool {
        &&& self.messages@.len() > 0
        &&& self.next <= self.valid@.len()
        &&& (self.phase == Phase::Before || self.phase == Phase::Executing || self.phase
            == Phase::After) ==> self.next < self.valid@.len() && self.base > 0
        &&& (self.phase == Phase::Ready || self.phase == Phase::Asked) ==> self.next
            == self.valid@.len()
        &&& self.base > 0 && self.phase != Phase::Finished ==> self.round_kept()
    }

    /// The turn after the next call was answered with a message.
    pub open spec fn answered_with(&self, before: &Self, m: MessageView) -> bool {
        &&& models::messages(self.messages@) == models::messages(before.messages@).push(m)
        &&& self.next == before.next + 1
        &&& self.phase == if before.next + 1 == before.valid@.len() {
            Phase::Ready
        } else {
            Phase::Before
        }
        &&& self.user_message == before.user_message
        &&& self.response == before.response
        &&& self.usage == before.usage
        &&& self.base == before.base
        &&& self.rejected == before.rejected
        &&& self.valid == before.valid
    }

    /// The messages that the model is sent: those of the turn, with what memory recalls.
    pub fn request_messages(&self, memory_context: &str) -> (r: Vec<Message>)
        ensures
            models::messages(r@) == with_memory(
                models::messages(self.messages@),
                memory::context_block(memory_context@),
            ),
    {
        let ghost ms = models::messages(self.messages@);
        let n: usize = self.messages.len();
        let mut out: Vec<Message> = models::copy_messages(&self.messages, 0, n);
        assert(ms.subrange(0, n as int) =~= ms);
        let block: String = memory::build_memory_context_block(memory_context);
        let mut end: usize = n;
        while end > 0 && self.messages[end - 1].role != MessageRole::User
            invariant
                end <= n == self.messages@.len(),
                ms == models::messages(self.messages@),
                last_user(ms, n as int) == last_user(ms, end as int),
            decreases end,
        {
            assert(ms[end - 1] == self.messages@[end - 1]@);
            end = end - 1;
        }
        if end == 0 {
            return out;
        }
        let i: usize = end - 1;
        assert(ms[i as int] == self.messages@[i as int]@);
        if block.as_str().unicode_len() > 0 {
            match &self.messages[i].content {
                Some(c) => {
                    let content: String = text::concat3(c.as_str(), "\n\n", block.as_str());
                    let mut m: Message = self.messages[i].clone();
                    m.content = Some(content);
                    let ghost view = m@;
                    out.set(i, m);
                    assert(models::messages(out@) =~= ms.update(i as int, view));
                },
                None => {},
            }
        }
        out
    }

    /// Whether the tokens of a reply can be added to those of the turn.
    pub fn can_add_usage(&self, usage: Option<Usage>) -> (r: bool)
        ensures
            r == usage_fits(self.usage, usage),
    {
        match (self.usage, usage) {
            (Some(t), Some(u)) => u.prompt_tokens.checked_add(t.prompt_tokens).is_some()
                && u.completion_tokens.checked_add(t.completion_tokens).is_some()
                && u.total_tokens.checked_add(t.total_tokens).is_some(),
            _ => true,
        }
    }

    fn add_usage(&mut self, usage: Option<Usage>)
        requires
            usage_fits(old(self).usage, usage),
        ensures
            *final(self) == (Turn { usage: usage_sum(old(self).usage, usage), ..*old(self) }),
    {
        match (self.usage, usage) {
            (Some(t), Some(u)) => {
                self.usage = Some(
                    Usage {
                        prompt_tokens: u.prompt_tokens + t.prompt_tokens,
                        completion_tokens: u.completion_tokens + t.completion_tokens,
                        total_tokens: u.total_tokens + t.total_tokens,
                    },
                );
            },
            (None, Some(u)) => {
                self.usage = Some(u);
            },
            _ => {},
        }
    }

    /// Takes the reply of the model. A reply without tool calls is the final answer. One with
    /// tool calls has those answered at once that name no tool; the others follow one by one.
    pub fn take_reply<T>(
        &mut self,
        registry: &ToolRegistry<T>,
        reply: Message,
        usage: Option<Usage>,
    )
        requires
            old(self).wf(),
            old(self).phase == Phase::Asked,
            usage_fits(old(self).usage, usage),
        ensures
            final(self).wf(),
            final(self).user_message == old(self).user_message,
            final(self).usage == usage_sum(old(self).usage, usage),
            ({
                let before = models::messages(old(self).messages@);
                let after = models::messages(final(self).messages@);
                let names = names_in(registry@);
                if calls_tools(reply@) {
                    let cs = reply@.tool_calls->0;
                    let unknown = calls_named(cs, names, false);
                    let valid = calls_named(cs, names, true);
                    &&& after == before.push(calling_message(reply@)) + rejections(unknown)
                    &&& final(self).response == old(self).response
                    &&& final(self).base == before.len()
                    &&& models::calls(final(self).rejected@) == unknown
                    &&& models::calls(final(self).valid@) == valid
                    &&& final(self).next == 0
                    &&& final(self).phase == if valid.len() > 0 {
                        Phase::Before
                    } else {
                        Phase::Ready
                    }
                } else {
                    &&& after == before.push(reply@)
                    &&& final(self).response@ == models::text_or_empty(reply@.content)
                    &&& final(self).phase == Phase::Finished
                }
            }),
    {
        self.add_usage(usage);
        let ghost before = models::messages(self.messages@);
        let calling: bool = match &reply.tool_calls {
            Some(v) => v.len() > 0,
            None => false,
        };
        if !calling {
            self.response = models::or_empty(&reply.content).to_owned();
            let ghost view = reply@;
            self.messages.push(reply);
            assert(models::messages(self.messages@) =~= before.push(view));
            self.phase = Phase::Finished;
            return;
        }
        let ghost names = names_in(registry@);
        let list: Vec<ToolCall> = match &reply.tool_calls {
            Some(v) => models::copy_calls(v),
            None => Vec::new(),
        };
        let ghost cs = models::calls(list@);
        assert(cs =~= reply@.tool_calls->0);
        let mut rejected: Vec<ToolCall> = Vec::new();
        let mut valid: Vec<ToolCall> = Vec::new();
        let mut i: usize = 0;
        assert(cs.take(0) =~= Seq::<ToolCallView>::empty());
        assert(models::calls(rejected@) =~= Seq::<ToolCallView>::empty());
        assert(models::calls(valid@) =~= Seq::<ToolCallView>::empty());
        while i < list.len()
            invariant
                i <= list@.len(),
                cs == models::calls(list@),
                names == names_in(registry@),
                models::calls(rejected@) == calls_named(cs.take(i as int), names, false),
                models::calls(valid@) == calls_named(cs.take(i as int), names, true),
            decreases list@.len() - i,
        {
            let ghost r0 = models::calls(rejected@);
            let ghost v0 = models::calls(valid@);
            proof {
                assert(cs.take(i + 1).drop_last() =~= cs.take(i as int));
                assert(cs.take(i + 1).last() == list@[i as int]@);
            }
            let c: ToolCall = list[i].clone();
            if registry.has_tool(c.function.name.as_str()) {
                valid.push(c);
                assert(models::calls(valid@) =~= v0.push(list@[i as int]@));
            } else {
                rejected.push(c);
                assert(models::calls(rejected@) =~= r0.push(list@[i as int]@));
            }
            i = i + 1;
        }
        assert(cs.take(i as int) =~= cs);
        let mut msg: Message = reply;
        let ghost reply_view = msg@;
        let blank: bool = models::or_empty(&msg.content).unicode_len() == 0;
        if blank {
            msg.content = None;
        }
        assert(msg@ =~= calling_message(reply_view));
        let base: usize = self.messages.len();
        self.messages.push(msg);
        let ghost unknown = models::calls(rejected@);
        let ghost start = before.push(calling_message(reply_view));
        assert(models::messages(self.messages@) =~= start + rejections(unknown).take(0));
        let mut k: usize = 0;
        while k < rejected.len()
            invariant
                k <= rejected@.len(),
                unknown == models::calls(rejected@),
                models::messages(self.messages@) == start + rejections(unknown).take(k as int),
                self.user_message == old(self).user_message,
                self.usage == usage_sum(old(self).usage, usage),
                self.response == old(self).response,
            decreases rejected@.len() - k,
        {
            let ghost so_far = models::messages(self.messages@);
            let c: &ToolCall = &rejected[k];
            let note: String = text::concat3(
                "Tool '",
                c.function.name.as_str(),
                "' does not exist. Available: check skills_list or use built-in tools.",
            );
            self.messages.push(
                Message::tool(c.id.as_str(), c.function.name.as_str(), note.as_str()),
            );
            proof {
                assert(unknown[k as int] == c@);
                assert(models::messages(self.messages@) =~= so_far.push(
                    rejections(unknown)[k as int],
                ));
                assert(start + rejections(unknown).take(k + 1) =~= so_far.push(
                    rejections(unknown)[k as int],
                ));
            }
            k = k + 1;
        }
        assert(rejections(unknown).take(k as int) =~= rejections(unknown));
        self.base = base;
        self.phase = if valid.len() > 0 {
            Phase::Before
        } else {
            Phase::Ready
        };
        self.next = 0;
        self.rejected = rejected;
        self.valid = valid;
        proof {
            let ms = models::messages(self.messages@);
            let good = models::calls(self.valid@);
            lemma_calls_split(cs, names);
            assert(ms[base as int] == calling_message(reply_view));
            assert(ms.skip(base + 1) =~= rejections(unknown));
            assert(unknown + good.take(0) =~= unknown);
            assert(answered_ids(rejections(unknown)) =~= some_ids(ids(unknown)));
        }
    }

    /// The call that is next.
    pub fn current_call(&self) -> (r: &ToolCall)
        requires
            self.next < self.valid@.len(),
        ensures
            *r == self.valid@[self.next as int],
    {
        &self.valid[self.next]
    }

    fn answer(&mut self, name: &str, content: &str)
        requires
            old(self).wf(),
            old(self).next < old(self).valid@.len(),
            old(self).base > 0,
            old(self).phase != Phase::Finished,
        ensures
            final(self).wf(),
            final(self).answered_with(
                old(self),
                models::tool_message(
                    old(self).valid@[old(self).next as int].id@,
                    name@,
                    content@,
                ),
            ),
    {
        let ghost before = models::messages(self.messages@);
        let n: usize = self.valid.len();
        let id: String = self.valid[self.next].id.clone();
        let m: Message = Message::tool(id.as_str(), name, content);
        let ghost view = m@;
        self.messages.push(m);
        self.next = self.next + 1;
        self.phase = if self.next == n {
            Phase::Ready
        } else {
            Phase::Before
        };
        proof {
            let ms = models::messages(self.messages@);
            let k = old(self).next as int;
            let b = self.base as int;
            let rejected = models::calls(self.rejected@);
            let valid = models::calls(self.valid@);
            assert(ms =~= before.push(view));
            assert(ms.skip(b + 1) =~= before.skip(b + 1).push(view));
            assert(rejected + valid.take(k + 1) =~= (rejected + valid.take(k)).push(valid[k]));
            assert(answered_ids(ms.skip(b + 1)) =~= answered_ids(before.skip(b + 1)).push(
                Some(id@),
            ));
            assert(some_ids(ids(rejected + valid.take(k + 1))) =~= some_ids(
                ids(rejected + valid.take(k)),
            ).push(Some(valid[k].id)));
        }
    }

    /// Takes what the hooks say of the next call. A call that they stop is answered with their
    /// reason; any other is to be carried out.
    pub fn take_before(&mut self, verdict: &HookResult<(String, Json)>) -> (r: Option<ToolReport>)
        requires
            old(self).wf(),
            old(self).phase == Phase::Before,
        ensures
            final(self).wf(),
            ({
                let call = old(self).valid@[old(self).next as int]@;
                match *verdict {
                    HookResult::Continue(_) => r is None && *final(self) == (Turn {
                        phase: Phase::Executing,
                        ..*old(self)
                    }),
                    HookResult::Cancel(reason) => {
                        let note = "Tool call cancelled by hook: "@ + reason@;
                        &&& final(self).answered_with(
                            old(self),
                            models::tool_message(call.id, call.name, note),
                        )
                        &&& r is Some && reports(r->0, call.name, false, note)
                    },
                }
            }),
    {
        match verdict {
            HookResult::Continue(_) => {
                self.phase = Phase::Executing;
                None
            },
            HookResult::Cancel(reason) => {
                let note: String = text::concat2("Tool call cancelled by hook: ", reason.as_str());
                let name: String = self.valid[self.next].function.name.clone();
                self.answer(name.as_str(), note.as_str());
                let output_len: usize = bytes::len(note.as_str());
                Some(ToolReport { name, success: false, output_len })
            },
        }
    }

    /// Takes the result of a tool. A tool that could not be run is answered for by its error;
    /// any other result goes to the hooks.
    pub fn take_result(&mut self, result: &Result<ToolOutput, String>) -> (r: Option<ToolReport>)
        requires
            old(self).wf(),
            old(self).phase == Phase::Executing,
        ensures
            final(self).wf(),
            ({
                let call = old(self).valid@[old(self).next as int]@;
                match *result {
                    Ok(_) => r is None && *final(self) == (Turn {
                        phase: Phase::After,
                        ..*old(self)
                    }),
                    Err(e) => {
                        let note = "{\"error\": \""@ + e@ + "\"}"@;
                        &&& final(self).answered_with(
                            old(self),
                            models::tool_message(call.id, call.name, note),
                        )
                        &&& r is Some && reports(r->0, call.name, false, note)
                    },
                }
            }),
    {
        match result {
            Ok(_) => {
                self.phase = Phase::After;
                None
            },
            Err(e) => {
                let note: String = text::concat3("{\"error\": \"", e.as_str(), "\"}");
                let name: String = self.valid[self.next].function.name.clone();
                self.answer(name.as_str(), note.as_str());
                let output_len: usize = bytes::len(note.as_str());
                Some(ToolReport { name, success: false, output_len })
            },
        }
    }

    /// Takes what the hooks say of the result of a tool: the call is answered with the result as
    /// they left it, or with their reason to hold it back.
    pub fn take_after(&mut self, verdict: &HookResult<(String, ToolOutput)>) -> (r: ToolReport)
        requires
            old(self).wf(),
            old(self).phase == Phase::After,
        ensures
            final(self).wf(),
            ({
                let call = old(self).valid@[old(self).next as int]@;
                match *verdict {
                    HookResult::Continue((name, output)) => {
                        &&& final(self).answered_with(
                            old(self),
                            models::tool_message(call.id, name@, tool::shown(output@)),
                        )
                        &&& reports(r, name@, output.success, output.text@)
                    },
                    HookResult::Cancel(reason) => {
                        let note = "Tool result cancelled by hook: "@ + reason@;
                        &&& final(self).answered_with(
                            old(self),
                            models::tool_message(call.id, call.name, note),
                        )
                        &&& reports(r, call.name, false, note)
                    },
                }
            }),
    {
        match verdict {
            HookResult::Continue(pair) => {
                let shown: String = pair.1.message_text();
                self.answer(pair.0.as_str(), shown.as_str());
                let output_len: usize = bytes::len(pair.1.text.as_str());
                ToolReport { name: pair.0.clone(), success: pair.1.success, output_len }
            },
            HookResult::Cancel(reason) => {
                let note: String = text::concat2(
                    "Tool result cancelled by hook: ",
                    reason.as_str(),
                );
                let name: String = self.valid[self.next].function.name.clone();
                self.answer(name.as_str(), note.as_str());
                let output_len: usize = bytes::len(note.as_str());
                ToolReport { name, success: false, output_len }
            },
        }
    }
}

proof fn lemma_calls_split(cs: Seq<ToolCallView>, names: Set<Seq<char>>)
    ensures
        ids(calls_named(cs, names, false) + calls_named(cs, names, true)).to_multiset() == ids(
            cs,
        ).to_multiset(),
    decreases cs.len(),
{
    let a = calls_named(cs, names, false);
    let b = calls_named(cs, names, true);
    if cs.len() == 0 {
        assert(ids(a + b) =~= ids(cs));
    } else {
        let rest = cs.drop_last();
        let x = cs.last();
        let a0 = calls_named(rest, names, false);
        let b0 = calls_named(rest, names, true);
        lemma_calls_split(rest, names);
        assert(ids(cs) =~= ids(rest).push(x.id));
        vstd::seq_lib::to_multiset_build(ids(rest), x.id);
        let s0 = ids(a0 + b0);
        if names.contains(x.name) {
            assert(ids(a + b) =~= s0.insert(s0.len() as int, x.id));
            vstd::seq_lib::to_multiset_insert(s0, s0.len() as int, x.id);
        } else {
            assert(ids(a + b) =~= s0.insert(a0.len() as int, x.id));
            vstd::seq_lib::to_multiset_insert(s0, a0.len() as int, x.id);
        }
        assert(ids(a + b).to_multiset() =~= ids(cs).to_multiset());
    }
}

// ---------------------------------------------------------------------------
// The system prompt
// ---------------------------------------------------------------------------

/// The system prompt: who the agent is, how it should reason, its skills, what it remembers,
/// and how it calls tools.
pub open spec fn prompt_text(
    identity_prompt: Seq<char>,
    skill_index: Seq<char>,
    memory_prompt: Seq<char>,
    enable_reasoning: bool,
) -> Seq<char> {
    let first = seq![identity_prompt];
    let second = if enable_reasoning {
        first.push("Use reasoning before tool calls when helpful. Think step by step."@)
    } else {
        first
    };
    let third = if skill_index.len() > 0 {
        second.push(skill_index)
    } else {
        second
    };
    let fourth = if memory_prompt.len() > 0 {
        third.push("## Memory Context\n"@ + memory_prompt)
    } else {
        third
    };
    text::joined(
        fourth.push(
            "When you need to use a tool, respond with a tool call. Otherwise respond directly."@,
        ),
        "\n\n"@,
    )
}

/// Builds the system prompt. The index of skills is left out where it is empty or could not be
/// had.
pub fn build_system_prompt(
    identity: &Identity,
    skill_index: Option<&str>,
    memory_prompt: &str,
    enable_reasoning: bool,
) -> (r: String)
    ensures
        r@ == prompt_text(
            identity::system_prompt(identity@),
            models::text_or_empty(json::opt_str(skill_index)),
            memory_prompt@,
            enable_reasoning,
        ),
{
    let mut parts: Vec<String> = Vec::new();
    parts.push(identity.to_system_prompt());
    let ghost first = text::texts(parts@);
    assert(first =~= seq![identity::system_prompt(identity@)]);
    if enable_reasoning {
        parts.push("Use reasoning before tool calls when helpful. Think step by step.".to_owned());
        assert(text::texts(parts@) =~= first.push(
            "Use reasoning before tool calls when helpful. Think step by step."@,
        ));
    }
    let ghost second = text::texts(parts@);
    match skill_index {
        Some(index) => {
            if index.unicode_len() > 0 {
                parts.push(index.to_owned());
                assert(text::texts(parts@) =~= second.push(index@));
            }
        },
        None => {},
    }
    let ghost third = text::texts(parts@);
    if memory_prompt.unicode_len() > 0 {
        parts.push(text::concat2("## Memory Context\n", memory_prompt));
        assert(text::texts(parts@) =~= third.push("## Memory Context\n"@ + memory_prompt@));
    }
    let ghost fourth = text::texts(parts@);
    parts.push(
        "When you need to use a tool, respond with a tool call. Otherwise respond directly.".to_owned(),
    );
    assert(text::texts(parts@) =~= fourth.push(
        "When you need to use a tool, respond with a tool call. Otherwise respond directly."@,
    ));
    text::join(&parts, "\n\n")
}

// ---------------------------------------------------------------------------
// Laws
// ---------------------------------------------------------------------------

/// Whenever the model is to be asked again, every tool call of its last reply has been answered,
/// each exactly once and by a tool, and nothing else was said since.
pub proof fn law_every_call_is_answered_once(turn: Turn)
    requires
        turn.wf(),
        turn.phase == Phase::Ready || turn.phase == Phase::Asked,
        turn.base > 0,
    ensures
        ({
            let ms = models::messages(turn.messages@);
            let answers = ms.skip(turn.base + 1);
            let calls = ms[turn.base as int].tool_calls->0;
            &&& turn.base < ms.len()
            &&& ms[turn.base as int].tool_calls is Some
            &&& exists|order: Seq<ToolCallView>| #![trigger ids(order)]
                ids(order).to_multiset() == ids(calls).to_multiset() && answered_ids(answers)
                    == some_ids(ids(order))
            &&& all_from_tools(answers)
        }),
{
    let rejected = models::calls(turn.rejected@);
    let valid = models::calls(turn.valid@);
    let order = rejected + valid;
    assert(valid.take(turn.next as int) =~= valid);
    assert(ids(order) == ids(rejected + valid));
}

/// A turn begins with the conversation so far, in full and in order, and with what the user says
/// now at its end. Only a conversation without any message begins with the system prompt, where
/// there is one.
pub proof fn law_conversation_goes_on(
    history: Seq<MessageView>,
    system_prompt: Seq<char>,
    user_message: Seq<char>,
)
    ensures
        ({
            let ms = opening(history, system_prompt, user_message);
            &&& history.len() > 0 ==> ms.len() == history.len() + 1
            &&& history.len() > 0 ==> forall|i: int|
                0 <= i < history.len() ==> #[trigger] ms[i] == history[i]
            &&& history.len() == 0 && system_prompt.len() > 0 ==> ms.len() == 2 && ms[0].role
                == MessageRole::System && ms[0].content == Some(system_prompt)
                && ms[0].tool_calls is None
            &&& history.len() == 0 && system_prompt.len() == 0 ==> ms.len() == 1
            &&& ms.last().role == MessageRole::User
            &&& ms.last().content == Some(user_message)
            &&& ms.last().tool_calls is None
            &&& ms.last().tool_call_id is None
        }),
{
}

/// The next turn remembers what was kept of this one: all of it, where it is within the bound, and
/// else its last messages.
pub proof fn law_next_turn_remembers(
    ms: Seq<MessageView>,
    system_prompt: Seq<char>,
    user_message: Seq<char>,
    k: int,
)
    requires
        0 < k <= ms.len(),
        k < MAX_HISTORY,
    ensures
        ({
            let next = opening(capped(ms), system_prompt, user_message);
            &&& ms.len() <= MAX_HISTORY ==> next.drop_last() == ms
            &&& next.len() > k
            &&& next[next.len() - 1 - k] == ms[ms.len() - k]
        }),
{
    let next = opening(capped(ms), system_prompt, user_message);
    if ms.len() <= MAX_HISTORY {
        assert(next.drop_last() =~= ms);
    }
}

/// A turn takes the tool calls of a reply apart by their names, keeps their order, and loses none:
/// the calls of two lists are those of the first and then those of the second, and a single call
/// is on the side where its name belongs.
pub proof fn law_calls_are_taken_apart(
    a: Seq<ToolCallView>,
    b: Seq<ToolCallView>,
    c: ToolCallView,
    names: Set<Seq<char>>,
    known: bool,
)
    ensures
        calls_named(a + b, names, known) == calls_named(a, names, known) + calls_named(
            b,
            names,
            known,
        ),
        names.contains(c.name) == known ==> calls_named(seq![c], names, known) == seq![c],
        names.contains(c.name) != known ==> calls_named(seq![c], names, known).len() == 0,
    decreases b.len(),
{
    reveal_with_fuel(calls_named, 2);
    assert(seq![c].drop_last() =~= Seq::<ToolCallView>::empty());
    assert(calls_named(seq![c].drop_last(), names, known) =~= Seq::<ToolCallView>::empty());
    if names.contains(c.name) == known {
        assert(calls_named(seq![c], names, known) =~= seq![c]);
    }
    if b.len() == 0 {
        assert(a + b =~= a);
        assert(calls_named(a, names, known) + calls_named(b, names, known) =~= calls_named(
            a,
            names,
            known,
        ));
    } else {
        law_calls_are_taken_apart(a, b.drop_last(), c, names, known);
        assert((a + b).drop_last() =~= a + b.drop_last());
        assert(calls_named(a + b, names, known) =~= calls_named(a, names, known) + calls_named(
            b,
            names,
            known,
        ));
    }
}

/// A call that names no tool is answered as a tool, under its own identifier and name, and is told
/// its name.
pub proof fn law_rejections_answer_their_call(c: ToolCallView)
    ensures
        rejection(c).role == MessageRole::Tool,
        rejection(c).tool_call_id == Some(c.id),
        rejection(c).name == Some(c.name),
        rejection(c).content is Some && text::includes(rejection(c).content->0, c.name),
{
    let before = "Tool '"@;
    let behind = "' does not exist. Available: check skills_list or use built-in tools."@;
    text::law_parts_are_in_the_whole(before, c.name, behind);
}

/// A reply with tool calls goes into the conversation as it is, with all its calls; only an empty
/// content is left out.
pub proof fn law_calling_reply_is_kept(m: MessageView)
    ensures
        calling_message(m).role == m.role,
        calling_message(m).tool_calls == m.tool_calls,
        calling_message(m).tool_call_id == m.tool_call_id,
        calling_message(m).name == m.name,
        calling_message(m).reasoning == m.reasoning,
        models::text_or_empty(calling_message(m).content) =~= models::text_or_empty(m.content),
        calling_message(m).content is Some <==> models::text_or_empty(m.content).len() > 0,
{
}

/// What requests took adds up, number by number; a request that did not say leaves the sum.
pub proof fn law_usage_adds_up(t: Usage, u: Usage)
    requires
        usage_fits(Some(t), Some(u)),
    ensures
        usage_sum(Some(t), Some(u)) is Some,
        usage_sum(Some(t), Some(u))->0.prompt_tokens == t.prompt_tokens + u.prompt_tokens,
        usage_sum(Some(t), Some(u))->0.completion_tokens == t.completion_tokens
            + u.completion_tokens,
        usage_sum(Some(t), Some(u))->0.total_tokens == t.total_tokens + u.total_tokens,
        usage_sum(None, Some(u)) == Some(u),
        usage_sum(Some(t), None) == Some(t),
        usage_sum(None, None) is None,
{
}

/// Tool calls get the arguments that were read from their text; an empty text, or one that is no
/// JSON, stands for no arguments.
pub proof fn law_arguments_are_those_read(arguments: Seq<char>)
    ensures
        match json::parsed(arguments) {
            Some(j) => text::all_space(arguments) || arguments_of(arguments) == j,
            None => true,
        },
        text::all_space(arguments) || json::parsed(arguments) is None ==> arguments_of(
            arguments,
        ) is Object && arguments_of(arguments)->Object_0.len() == 0,
{
    text::law_trimming_takes_only_space(arguments);
}

/// A request is counted, and paid for from the budget unless it is the grace call; nothing else of
/// the agent changes.
pub proof fn law_requests_are_paid_for(a: Agent)
    requires
        may_call(a),
        a.api_call_count < usize::MAX,
    ensures
        ({
            let b = after_call(a);
            &&& b.api_call_count == a.api_call_count + 1
            &&& b.iteration_budget.max_total == a.iteration_budget.max_total
            &&& b.iteration_budget.used == a.iteration_budget.used || b.iteration_budget.used
                == a.iteration_budget.used + 1
            &&& b.iteration_budget.used == a.iteration_budget.used ==> b.grace_call_used && (
            a.budget_grace_call || !a.grace_call_used)
            &&& b.iteration_budget.used > a.iteration_budget.used ==> b.grace_call_used
                == a.grace_call_used && a.iteration_budget.used < a.iteration_budget.max_total
                && a.api_call_count < a.max_iterations
            &&& b.conversation_history == a.conversation_history
            &&& b.system_prompt == a.system_prompt
            &&& b.session_id == a.session_id
            &&& b.turn_count == a.turn_count
            &&& b.max_iterations == a.max_iterations
        }),
{
}

/// The system prompt begins with who the agent is and ends with how it calls tools; the index of
/// skills and what is remembered stand between, in this order, where there is any.
pub proof fn law_prompt_holds_its_parts(
    identity_prompt: Seq<char>,
    skill_index: Seq<char>,
    memory_prompt: Seq<char>,
    enable_reasoning: bool,
)
    ensures
        ({
            let p = prompt_text(identity_prompt, skill_index, memory_prompt, enable_reasoning);
            let last =
                "When you need to use a tool, respond with a tool call. Otherwise respond directly."@;
            let reasoning = "Use reasoning before tool calls when helpful. Think step by step."@;
            &&& text::stands_before(p, identity_prompt, last)
            &&& enable_reasoning ==> text::stands_before(p, identity_prompt, reasoning)
            &&& skill_index.len() > 0 ==> text::stands_before(p, identity_prompt, skill_index)
            &&& skill_index.len() > 0 ==> text::stands_before(p, skill_index, last)
            &&& memory_prompt.len() > 0 ==> text::stands_before(
                p,
                identity_prompt,
                "## Memory Context\n"@ + memory_prompt,
            )
            &&& memory_prompt.len() > 0 ==> text::stands_before(
                p,
                "## Memory Context\n"@ + memory_prompt,
                last,
            )
            &&& skill_index.len() > 0 && memory_prompt.len() > 0 ==> text::stands_before(
                p,
                skill_index,
                "## Memory Context\n"@ + memory_prompt,
            )
        }),
{
    let last =
        "When you need to use a tool, respond with a tool call. Otherwise respond directly."@;
    let sep = "\n\n"@;
    let first = seq![identity_prompt];
    let second = if enable_reasoning {
        first.push("Use reasoning before tool calls when helpful. Think step by step."@)
    } else {
        first
    };
    let third = if skill_index.len() > 0 {
        second.push(skill_index)
    } else {
        second
    };
    let fourth = if memory_prompt.len() > 0 {
        third.push("## Memory Context\n"@ + memory_prompt)
    } else {
        third
    };
    let parts = fourth.push(last);
    let n = parts.len() as int;
    text::law_joined_keeps_order(parts, sep, 0, n - 1);
    if enable_reasoning {
        text::law_joined_keeps_order(parts, sep, 0, 1);
    }
    let k = second.len() as int;
    if skill_index.len() > 0 {
        assert(parts[k] == skill_index);
        text::law_joined_keeps_order(parts, sep, 0, k);
        text::law_joined_keeps_order(parts, sep, k, n - 1);
    }
    if memory_prompt.len() > 0 {
        assert(parts[n - 2] == "## Memory Context\n"@ + memory_prompt);
        text::law_joined_keeps_order(parts, sep, 0, n - 2);
        text::law_joined_keeps_order(parts, sep, n - 2, n - 1);
        if skill_index.len() > 0 {
            text::law_joined_keeps_order(parts, sep, k, n - 2);
        }
    }
}

/// What is kept of a conversation is never longer than the bound; the system message stays at
/// the beginning, and the last messages are all there.
pub proof fn law_history_is_bounded(ms: Seq<MessageView>)
    ensures
        capped(ms).len() <= MAX_HISTORY,
        capped(ms).len() <= ms.len(),
        ms.len() <= MAX_HISTORY ==> capped(ms) == ms,
        ms.len() > MAX_HISTORY ==> capped(ms).len() == MAX_HISTORY,
        ms.len() > 0 && ms[0].role == MessageRole::System ==> capped(ms)[0] == ms[0],
        ms.len() >= MAX_HISTORY - 1 ==> capped(ms).skip(capped(ms).len() - (MAX_HISTORY - 1))
            == ms.skip(ms.len() - (MAX_HISTORY - 1)),
{
    if ms.len() >= MAX_HISTORY - 1 {
        assert(capped(ms).skip(capped(ms).len() - (MAX_HISTORY - 1)) =~= ms.skip(
            ms.len() - (MAX_HISTORY - 1),
        ));
    }
}

/// Keeping the kept part of a conversation once more changes nothing.
pub proof fn law_capping_is_stable(ms: Seq<MessageView>)
    ensures
        capped(capped(ms)) == capped(ms),
{
    law_history_is_bounded(ms);
}

proof fn lemma_last_user(ms: Seq<MessageView>, end: int)
    requires
        0 <= end <= ms.len(),
    ensures
        match last_user(ms, end) {
            Some(i) => 0 <= i < end && ms[i].role == MessageRole::User,
            None => true,
        },
    decreases end,
{
    if end > 0 && ms[end - 1].role != MessageRole::User {
        lemma_last_user(ms, end - 1);
    }
}

/// Recalled memories change what the user said last and nothing else: every message keeps its
/// place, its role and its tool calls.
pub proof fn law_memory_changes_one_message(ms: Seq<MessageView>, block: Seq<char>, i: int)
    requires
        0 <= i < ms.len(),
    ensures
        with_memory(ms, block).len() == ms.len(),
        with_memory(ms, block)[i].role == ms[i].role,
        with_memory(ms, block)[i].tool_calls == ms[i].tool_calls,
        with_memory(ms, block)[i].tool_call_id == ms[i].tool_call_id,
        last_user(ms, ms.len() as int) != Some(i) ==> with_memory(ms, block)[i] == ms[i],
{
    lemma_last_user(ms, ms.len() as int);
}

proof fn lemma_last_user_is(ms: Seq<MessageView>, end: int, i: int)
    requires
        0 <= i < end <= ms.len(),
        ms[i].role == MessageRole::User,
        forall|j: int| i < j < end ==> (#[trigger] ms[j]).role != MessageRole::User,
    ensures
        last_user(ms, end) == Some(i),
    decreases end,
{
    if end - 1 > i {
        lemma_last_user_is(ms, end - 1, i);
    }
}

/// Recalled memories stand behind what the user said last, which stays in front of them; without
/// any, and where the user said nothing, all messages stay as they are.
pub proof fn law_memory_stands_behind_the_question(
    ms: Seq<MessageView>,
    block: Seq<char>,
    i: int,
)
    requires
        0 <= i < ms.len(),
        ms[i].role == MessageRole::User,
        forall|j: int| i < j < ms.len() ==> (#[trigger] ms[j]).role != MessageRole::User,
    ensures
        block.len() == 0 ==> with_memory(ms, block) == ms,
        block.len() > 0 && ms[i].content is Some ==> with_memory(ms, block)[i].content == Some(
            ms[i].content->0 + "\n\n"@ + block,
        ),
        ms[i].content is None ==> with_memory(ms, block) == ms,
{
    lemma_last_user_is(ms, ms.len() as int, i);
}

proof fn lemma_requests_made(a: Agent, replies: Seq<MessageView>)
    requires
        !a.budget_grace_call,
        a.api_call_count + calls_left(a) <= usize::MAX,
    ensures
        requests_made(a, replies) <= calls_left(a),
        replies.len() >= calls_left(a) && (forall|i: int|
            0 <= i < calls_left(a) - 1 ==> calls_tools(#[trigger] replies[i])) ==> requests_made(
            a,
            replies,
        ) == calls_left(a),
    decreases replies.len(),
{
    if replies.len() > 0 && may_call(a) {
        let rest = replies.drop_first();
        let b = after_call(a);
        assert(calls_left(b) == calls_left(a) - 1);
        lemma_requests_made(b, rest);
        if replies.len() >= calls_left(a) && (forall|i: int|
            0 <= i < calls_left(a) - 1 ==> calls_tools(#[trigger] replies[i])) {
            assert forall|i: int| 0 <= i < calls_left(b) - 1 implies calls_tools(
                #[trigger] rest[i],
            ) by {
                assert(rest[i] == replies[i + 1]);
            }
        }
    }
}

/// On a fresh budget a turn makes at most one request more than the budget holds, which is the
/// grace call; it makes exactly that many where the replies before the last one all call tools.
pub proof fn law_one_grace_call(a: Agent, replies: Seq<MessageView>, n: usize)
    requires
        n < usize::MAX,
        a.max_iterations == n,
        a.iteration_budget == (IterationBudget { max_total: n, used: 0 }),
        a.api_call_count == 0,
        !a.budget_grace_call,
        !a.grace_call_used,
    ensures
        requests_made(a, replies) <= n + 1,
        replies.len() >= n + 1 && (forall|i: int|
            0 <= i < n ==> calls_tools(#[trigger] replies[i])) ==> requests_made(a, replies) == n
            + 1,
{
    lemma_requests_made(a, replies);
}

/// A refund undoes a use of the budget.
pub proof fn law_refund_undoes_use(b: IterationBudget)
    requires
        b.used < b.max_total,
    ensures
        refunded(consumed(b)) == b,
        consumed(b).left() == b.left() - 1,
{
}

/// Agents with the same settings agree in the model, the prompt, the limits and the budget.
pub proof fn law_settings_are_all_kept(a: Agent, b: Agent)
    requires
        a.same_settings(&b),
    ensures
        a.model@ == b.model@,
        a.system_prompt@ == b.system_prompt@,
        a.max_iterations == b.max_iterations,
        a.compression_enabled == b.compression_enabled,
        a.max_context_tokens == b.max_context_tokens,
        a.iteration_budget.max_total == b.iteration_budget.max_total,
{
}

/// The answer to a call is one more message behind all the others; nothing else of the turn
/// changes but that the next call is due, or the model where that was the last one.
pub proof fn law_answers_are_added(before: Turn, after: Turn, m: MessageView, i: int)
    requires
        after.answered_with(&before, m),
    ensures
        ({
            let ms = models::messages(before.messages@);
            let now = models::messages(after.messages@);
            &&& now.len() == ms.len() + 1
            &&& now.last() == m
            &&& 0 <= i < ms.len() ==> now[i] == ms[i]
        }),
        after.next == before.next + 1,
        after.phase == Phase::Ready || after.phase == Phase::Before,
        after.phase == Phase::Ready <==> after.next == before.valid@.len(),
        after.usage == before.usage,
        after.response@ == before.response@,
        after.user_message@ == before.user_message@,
        after.valid == before.valid,
        after.rejected == before.rejected,
        after.base == before.base,
{
}

/// What is told of a call is its name, whether it was a success, and how many bytes it gave.
pub proof fn law_reports_tell_the_outcome(
    r: ToolReport,
    name: Seq<char>,
    success: bool,
    output: Seq<char>,
)
    requires
        reports(r, name, success, output),
    ensures
        r.name@ == name,
        r.success == success,
        r.output_len == bytes::byte_len(output),
{
}

/// Giving back what was used restores the budget, and neither ever passes its bounds.
pub proof fn law_refunds_undo_uses(b: IterationBudget)
    requires
        b.wf(),
    ensures
        b.used < b.max_total ==> refunded(consumed(b)) == b && consumed(b).left() == b.left() - 1,
        b.used == b.max_total ==> consumed(b) == b && b.left() == 0,
        b.used > 0 ==> consumed(refunded(b)) == b && refunded(b).left() == b.left() + 1,
        b.used == 0 ==> refunded(b) == b,
        consumed(b).wf() && refunded(b).wf(),
{
}

} // verus!
