//! The review of conversations for facts worth keeping.

use crate::file_memory;
use crate::file_memory::{FileMemoryStore, MemoryEntry, MemoryTarget};
use crate::models;
use crate::models::{Message, MessageRole, MessageView};
use crate::text;
use crate::unicode;
use vstd::prelude::*;

verus! {

/// What the model is told about its task.
pub const REVIEW_SYSTEM_PROMPT: &'static str = r#"You are a memory extraction assistant. Your job is to review a conversation and extract durable facts worth saving to persistent memory.

Focus on:
- User preferences (style, format, tone, tools, workflows)
- Personal details (name, role, tech stack, project context)
- Corrections ("don't do X", "I prefer Y", "always use Z")
- Recurring patterns ("every morning I...", "for this project we...")

DO NOT save:
- Transient errors or environment issues
- One-off task steps that won't recur
- Negative claims about tools ("X is broken today")
- Anything time-sensitive or likely to change soon

Before adding a new fact, check if a similar fact already exists. If so, use "replace" instead of "add".

Output STRICT JSON with this exact structure:
{
  "actions": [
    {"type": "add", "target": "memory", "content": "..."},
    {"type": "add", "target": "user", "content": "..."},
    {"type": "replace", "target": "memory", "old": "...", "new": "..."}
  ],
  "summary": "One-line description of what was saved, or 'Nothing to save.'"
}

IMPORTANT: target MUST be exactly "memory" or "user" (not "memory|user")."#;

/// What is to be done about a fact.
#[derive(Debug, Clone, Copy, PartialEq, Eq, Structural)]
pub enum ReviewActionType {
    Add,
    Replace,
    Remove,
}

/// One thing that a review asks for.
#[derive(Debug, Clone)]
pub struct ReviewAction {
    pub action_type: ReviewActionType,
    pub target: String,
    pub content: Option<String>,
    pub old: Option<String>,
    pub new: Option<String>,
}

/// What the model answers to a review.
#[derive(Debug, Clone)]
pub struct ReviewResponse {
    pub actions: Vec<ReviewAction>,
    pub summary: String,
}

/// What came of a review.
#[derive(Debug, Clone)]
pub struct ReviewResult {
    pub actions_executed: usize,
    pub summary: String,
}

// ---------------------------------------------------------------------------
// When to review
// ---------------------------------------------------------------------------

/// Counts the turns since the last review.
#[derive(Debug, Clone)]
pub struct MemoryReviewer {
    pub interval: usize,
    pub window_size: usize,
    pub turns_since_review: usize,
}

/// The count after one more turn. An interval of 0 turns reviews off.
pub open spec fn counted(interval: nat, turns: nat) -> nat {
    if interval == 0 {
        turns
    } else if turns + 1 >= interval {
        0
    } else {
        turns + 1
    }
}

/// A review is due after one more turn.
pub open spec fn due(interval: nat, turns: nat) -> bool {
    interval > 0 && turns + 1 >= interval
}

/// The count after a number of turns.
pub open spec fn count_after(interval: nat, n: nat) -> nat
    decreases n,
{
    if n == 0 {
        0
    } else {
        counted(interval, count_after(interval, (n - 1) as nat))
    }
}

impl MemoryReviewer {
    /// The count has not passed the interval.
    pub open spec fn wf(&self) -> bool {
        self.turns_since_review <= self.interval
    }

    /// Reviews at that interval, of that many messages; no turn has been counted.
    pub fn new(interval: usize, window_size: usize) -> (r: Self)
        ensures
            r.interval == interval,
            r.window_size == window_size,
            r.turns_since_review == 0,
            r.wf(),
    {
        MemoryReviewer { interval, window_size, turns_since_review: 0 }
    }

    /// Counts a turn. Gives whether a review is due; then the count starts again.
    pub fn should_review(&mut self, _turn_count: usize) -> (r: bool)
        requires
            old(self).wf(),
        ensures
            r == due(old(self).interval as nat, old(self).turns_since_review as nat),
            final(self).turns_since_review == counted(
                old(self).interval as nat,
                old(self).turns_since_review as nat,
            ),
            final(self).interval == old(self).interval,
            final(self).window_size == old(self).window_size,
            final(self).wf(),
    {
        if self.interval == 0 {
            return false;
        }
        if self.turns_since_review >= self.interval - 1 {
            self.turns_since_review = 0;
            true
        } else {
            self.turns_since_review = self.turns_since_review + 1;
            false
        }
    }

    /// Starts counting again.
    pub fn reset_counter(&mut self)
        ensures
            *final(self) == (MemoryReviewer { turns_since_review: 0, ..*old(self) }),
    {
        self.turns_since_review = 0;
    }

    /// After how many turns a review is due.
    pub fn interval(&self) -> (r: usize)
        ensures
            r == self.interval,
    {
        self.interval
    }

    /// How many messages a review looks at.
    pub fn window_size(&self) -> (r: usize)
        ensures
            r == self.window_size,
    {
        self.window_size
    }

    /// The last messages of a conversation, as many as a review looks at.
    pub fn snapshot(&self, list: &Vec<Message>) -> (r: Vec<Message>)
        ensures
            models::messages(r@) == last_messages(
                models::messages(list@),
                self.window_size as int,
            ),
    {
        take_last(list, self.window_size)
    }

    /// What the JSON in the answer of the model is, without the fence around it.
    pub fn extract_json(answer: &str) -> (r: &str)
        ensures
            r@ == json_part(answer@),
    {
        proof {
            reveal_strlit("```json");
            reveal_strlit("```");
            reveal_strlit("\n```");
        }
        let t: &str = text::trim(answer);
        if text::starts_with(t, "```json") {
            proof {
                lemma_fence(t@, "```json"@);
            }
            match text::find(t, "\n```") {
                Some(end) => {
                    return text::trim(t.substring_char(7, end));
                },
                None => {},
            }
        }
        if text::starts_with(t, "```") {
            proof {
                lemma_fence(t@, "```"@);
            }
            match text::find(t, "\n```") {
                Some(end) => {
                    return text::trim(t.substring_char(3, end));
                },
                None => {},
            }
        }
        t
    }
}

/// The last `n` messages, or all where there are fewer.
pub open spec fn last_messages(ms: Seq<MessageView>, n: int) -> Seq<MessageView> {
    if ms.len() <= n {
        ms
    } else {
        ms.skip(ms.len() - n)
    }
}

fn take_last(list: &Vec<Message>, n: usize) -> (r: Vec<Message>)
    ensures
        models::messages(r@) == last_messages(models::messages(list@), n as int),
{
    let len: usize = list.len();
    let start: usize = if len <= n {
        0
    } else {
        len - n
    };
    let out: Vec<Message> = models::copy_messages(list, start, len);
    assert(models::messages(list@).subrange(start as int, len as int) =~= last_messages(
        models::messages(list@),
        n as int,
    ));
    out
}

/// The messages that a review of a whole session looks at: the last 50.
pub fn session_window(list: &Vec<Message>) -> (r: Vec<Message>)
    ensures
        models::messages(r@) == last_messages(models::messages(list@), 50),
{
    take_last(list, 50)
}

/// What comes of a review of nothing.
pub fn nothing_to_save() -> (r: ReviewResult)
    ensures
        r.actions_executed == 0,
        r.summary@ == "Nothing to save."@,
{
    ReviewResult { actions_executed: 0, summary: "Nothing to save.".to_owned() }
}

// ---------------------------------------------------------------------------
// Asking the model
// ---------------------------------------------------------------------------

/// How a role is written.
pub open spec fn role_name(role: MessageRole) -> Seq<char> {
    match role {
        MessageRole::System => "system"@,
        MessageRole::User => "user"@,
        MessageRole::Assistant => "assistant"@,
        MessageRole::Tool => "tool"@,
    }
}

/// The text of a conversation; messages without content are left out.
pub open spec fn conversation_text(ms: Seq<MessageView>) -> Seq<char>
    decreases ms.len(),
{
    if ms.len() == 0 {
        "## Conversation to review\n\n"@
    } else {
        let before = conversation_text(ms.drop_last());
        let content = models::text_or_empty(ms.last().content);
        if content.len() > 0 {
            before + "["@ + role_name(ms.last().role) + "]: "@ + content + "\n\n"@
        } else {
            before
        }
    }
}

fn name_of_role(role: MessageRole) -> (r: &'static str)
    ensures
        r@ == role_name(role),
{
    match role {
        MessageRole::System => "system",
        MessageRole::User => "user",
        MessageRole::Assistant => "assistant",
        MessageRole::Tool => "tool",
    }
}

/// The messages by which the model is asked to review a conversation.
pub fn build_review_prompt(snapshot: &Vec<Message>) -> (r: Vec<Message>)
    ensures
        models::messages(r@) == seq![
            models::plain_message(MessageRole::System, REVIEW_SYSTEM_PROMPT@),
            models::plain_message(
                MessageRole::User,
                conversation_text(models::messages(snapshot@)),
            ),
        ],
{
    let ghost ms = models::messages(snapshot@);
    let mut out: String = "## Conversation to review\n\n".to_owned();
    let mut i: usize = 0;
    assert(ms.take(0) =~= Seq::<MessageView>::empty());
    while i < snapshot.len()
        invariant
            i <= snapshot@.len(),
            ms == models::messages(snapshot@),
            out@ == conversation_text(ms.take(i as int)),
        decreases snapshot@.len() - i,
    {
        proof {
            assert(ms.take(i + 1).drop_last() =~= ms.take(i as int));
            assert(ms.take(i + 1).last() == snapshot@[i as int]@);
        }
        let content: &str = models::or_empty(&snapshot[i].content);
        if content.unicode_len() > 0 {
            out.append("[");
            out.append(name_of_role(snapshot[i].role));
            out.append("]: ");
            out.append(content);
            out.append("\n\n");
        }
        i = i + 1;
    }
    assert(ms.take(i as int) =~= ms);
    let mut messages: Vec<Message> = Vec::new();
    messages.push(Message::system(REVIEW_SYSTEM_PROMPT));
    messages.push(Message::user(out.as_str()));
    assert(models::messages(messages@) =~= seq![
        models::plain_message(MessageRole::System, REVIEW_SYSTEM_PROMPT@),
        models::plain_message(MessageRole::User, conversation_text(ms)),
    ]);
    messages
}

/// The JSON in an answer: what stands in a fence that is closed, else all of it.
pub open spec fn json_part(answer: Seq<char>) -> Seq<char> {
    let t = text::trimmed(answer);
    match text::found(t, "\n```"@) {
        Some(end) => if text::begins(t, "```json"@) {
            text::trimmed(t.subrange(7, end))
        } else if text::begins(t, "```"@) {
            text::trimmed(t.subrange(3, end))
        } else {
            t
        },
        None => t,
    }
}

proof fn lemma_fence(t: Seq<char>, fence: Seq<char>)
    requires
        text::begins(t, fence),
        fence == "```json"@ || fence == "```"@,
    ensures
        match text::found(t, "\n```"@) {
            Some(end) => fence.len() <= end && end + 4 <= t.len(),
            None => true,
        },
{
    reveal_strlit("```json");
    reveal_strlit("```");
    reveal_strlit("\n```");
    text::lemma_found_from(t, "\n```"@, 0);
    match text::found(t, "\n```"@) {
        Some(end) => {
            assert(t.subrange(end, end + 4)[0] == '\n');
            if end < fence.len() {
                assert(t.subrange(0, fence.len() as int)[end] == fence[end]);
                assert(t[end] == fence[end]);
            }
        },
        None => {},
    }
}

// ---------------------------------------------------------------------------
// Carrying out what a review asks for
// ---------------------------------------------------------------------------

/// One of two texts is in the other.
pub open spec fn overlapping(a: Seq<char>, b: Seq<char>) -> bool {
    text::includes(a, b) || text::includes(b, a)
}

/// One of the entries says the same, letter case aside: it is in the text, or the text in it.
pub open spec fn said_before(entries: Seq<Seq<char>>, content: Seq<char>) -> bool {
    exists|i: int| #![trigger entries[i]]
        0 <= i < entries.len() && overlapping(
            unicode::lowercase(entries[i]),
            unicode::lowercase(content),
        )
}

/// The file that an action names.
pub open spec fn named_target(name: Seq<char>) -> Option<MemoryTarget> {
    if name == "memory"@ {
        Some(MemoryTarget::Memory)
    } else if name == "user"@ {
        Some(MemoryTarget::User)
    } else {
        None
    }
}

/// What a file holds after an action on it, and whether the action counts as carried out. What
/// is said already is not added again.
pub open spec fn action_result(raw: Seq<char>, limit: int, a: ReviewAction) -> (Seq<char>, bool) {
    match a.action_type {
        ReviewActionType::Add => match a.content {
            Some(content) => if said_before(file_memory::entries_in(raw), content@) {
                (raw, false)
            } else {
                (file_memory::added(raw, content@, limit), true)
            },
            None => (raw, false),
        },
        ReviewActionType::Replace => match (a.old, a.new) {
            (Some(o), Some(n)) => if o@.len() > 0 && text::includes(raw, o@) {
                (file_memory::replaced(raw, o@, n@), true)
            } else {
                (raw, false)
            },
            _ => (raw, false),
        },
        ReviewActionType::Remove => match a.old {
            Some(o) => if o@.len() > 0 && text::includes(raw, o@) {
                (file_memory::replaced(raw, o@, Seq::empty()), true)
            } else {
                (raw, false)
            },
            None => (raw, false),
        },
    }
}

/// What the two files hold, and how many actions were carried out, after some actions.
pub open spec fn actions_result(
    memory: Seq<char>,
    user: Seq<char>,
    memory_limit: int,
    user_limit: int,
    actions: Seq<ReviewAction>,
) -> (Seq<char>, Seq<char>, nat)
    decreases actions.len(),
{
    if actions.len() == 0 {
        (memory, user, 0)
    } else {
        let (m, u, n) = actions_result(
            memory,
            user,
            memory_limit,
            user_limit,
            actions.drop_last(),
        );
        let a = actions.last();
        match named_target(a.target@) {
            Some(MemoryTarget::Memory) => {
                let (raw, done) = action_result(m, memory_limit, a);
                (
                    raw,
                    u,
                    if done {
                        n + 1
                    } else {
                        n
                    },
                )
            },
            Some(MemoryTarget::User) => {
                let (raw, done) = action_result(u, user_limit, a);
                (
                    m,
                    raw,
                    if done {
                        n + 1
                    } else {
                        n
                    },
                )
            },
            None => (m, u, n),
        }
    }
}

/// Whether one of two texts is in the other.
pub fn overlap(a: &str, b: &str) -> (r: bool)
    ensures
        r == overlapping(a@, b@),
{
    text::contains(a, b) || text::contains(b, a)
}

/// The file that an action names.
pub fn target_of(name: &str) -> (r: Option<MemoryTarget>)
    ensures
        r == named_target(name@),
{
    if text::same(name, "memory") {
        Some(MemoryTarget::Memory)
    } else if text::same(name, "user") {
        Some(MemoryTarget::User)
    } else {
        None
    }
}

/// Whether a file says the same already.
pub fn already_exists(store: &FileMemoryStore, target: MemoryTarget, content: &str) -> (r: bool)
    ensures
        r == said_before(file_memory::entries_in(store.content(target)), content@),
{
    let entries: Vec<MemoryEntry> = store.load_entries(target);
    let ghost texts = file_memory::entries_in(store.content(target));
    let lower: String = unicode::to_lower(content);
    let mut i: usize = 0;
    while i < entries.len()
        invariant
            i <= entries@.len(),
            texts == file_memory::entries_in(store.content(target)),
            file_memory::holds_entries(entries@, texts),
            lower@ == unicode::lowercase(content@),
            forall|j: int| #![trigger texts[j]]
                0 <= j < i ==> !overlapping(
                    unicode::lowercase(texts[j]),
                    unicode::lowercase(content@),
                ),
        decreases entries@.len() - i,
    {
        let entry: String = unicode::to_lower(entries[i].content.as_str());
        assert(entries@[i as int].content@ == texts[i as int]);
        if overlap(entry.as_str(), lower.as_str()) {
            return true;
        }
        i = i + 1;
    }
    false
}

/// Carries out an action on a file. Gives whether it counts as carried out.
pub fn execute_action(store: &mut FileMemoryStore, target: MemoryTarget, action: &ReviewAction) -> (r:
    bool)
    ensures
        final(store).differs_in(old(store), target),
        (final(store).content(target), r) == action_result(
            old(store).content(target),
            old(store).limit(target),
            *action,
        ),
{
    match action.action_type {
        ReviewActionType::Add => match &action.content {
            Some(content) => {
                if already_exists(store, target, content.as_str()) {
                    false
                } else {
                    store.add(target, content.as_str());
                    true
                }
            },
            None => false,
        },
        ReviewActionType::Replace => match &action.old {
            Some(o) => match &action.new {
                Some(n) => store.replace(target, o.as_str(), n.as_str()),
                None => false,
            },
            None => false,
        },
        ReviewActionType::Remove => match &action.old {
            Some(o) => store.remove(target, o.as_str()),
            None => false,
        },
    }
}

/// Carries out what a review asks for, in order. Actions that name no file are passed over.
/// Gives how many were carried out.
pub fn execute_actions(store: &mut FileMemoryStore, actions: &Vec<ReviewAction>) -> (r: usize)
    ensures
        (final(store).memory@, final(store).user@, r as nat) == actions_result(
            old(store).memory@,
            old(store).user@,
            old(store).memory_char_limit as int,
            old(store).user_char_limit as int,
            actions@,
        ),
        final(store).memory_path == old(store).memory_path,
        final(store).user_path == old(store).user_path,
        final(store).memory_char_limit == old(store).memory_char_limit,
        final(store).user_char_limit == old(store).user_char_limit,
{
    let mut executed: usize = 0;
    let mut i: usize = 0;
    assert(actions@.take(0) =~= Seq::<ReviewAction>::empty());
    while i < actions.len()
        invariant
            i <= actions@.len(),
            executed <= i,
            (store.memory@, store.user@, executed as nat) == actions_result(
                old(store).memory@,
                old(store).user@,
                old(store).memory_char_limit as int,
                old(store).user_char_limit as int,
                actions@.take(i as int),
            ),
            store.memory_path == old(store).memory_path,
            store.user_path == old(store).user_path,
            store.memory_char_limit == old(store).memory_char_limit,
            store.user_char_limit == old(store).user_char_limit,
        decreases actions@.len() - i,
    {
        proof {
            assert(actions@.take(i + 1).drop_last() =~= actions@.take(i as int));
            assert(actions@.take(i + 1).last() == actions@[i as int]);
        }
        match target_of(actions[i].target.as_str()) {
            Some(target) => {
                if execute_action(store, target, &actions[i]) {
                    executed = executed + 1;
                }
            },
            None => {},
        }
        i = i + 1;
    }
    assert(actions@.take(i as int) =~= actions@);
    executed
}

// ---------------------------------------------------------------------------
// Laws
// ---------------------------------------------------------------------------

/// Reviews come at even distances: with an interval above 0 the review after the n-th turn is due
/// exactly when n is a multiple of the interval.
pub proof fn law_reviews_come_at_intervals(interval: nat, n: nat)
    requires
        interval > 0,
        n > 0,
    ensures
        due(interval, count_after(interval, (n - 1) as nat)) <==> n % interval == 0,
        count_after(interval, n) == n % interval,
    decreases n,
{
    let before = (n - 1) as nat;
    if before > 0 {
        law_reviews_come_at_intervals(interval, before);
    } else {
        vstd::arithmetic::div_mod::lemma_small_mod(0, interval);
    }
    let c = count_after(interval, before);
    assert(c == before % interval);
    vstd::arithmetic::div_mod::lemma_fundamental_div_mod(before as int, interval as int);
    let q = before as int / interval as int;
    assert(before == q * interval + c) by {
        vstd::arithmetic::mul::lemma_mul_is_commutative(q, interval as int);
    }
    if c + 1 < interval {
        vstd::arithmetic::div_mod::lemma_fundamental_div_mod_converse(
            n as int,
            interval as int,
            q,
            (c + 1) as int,
        );
    } else {
        vstd::arithmetic::mul::lemma_mul_is_distributive_add_other_way(interval as int, q, 1);
        vstd::arithmetic::div_mod::lemma_fundamental_div_mod_converse(
            n as int,
            interval as int,
            q + 1,
            0,
        );
    }
}

/// With an interval of 0 no review is ever due.
pub proof fn law_interval_zero_turns_reviews_off(n: nat)
    ensures
        !due(0, count_after(0, n)),
{
}

/// What was just added is not added again: asked for once more, the same fact counts as said, if
/// it holds no delimiter and the file does not end in the middle of one.
pub proof fn law_added_fact_counts_as_said(raw: Seq<char>, content: Seq<char>, limit: int)
    requires
        ({
            let entry = text::trimmed(content);
            &&& entry == content
            &&& entry.len() > 0
            &&& text::found(entry, file_memory::ENTRY_DELIMITER@) is None
            &&& raw.len() > 0 ==> file_memory::closed_end(
                text::pieces(raw, file_memory::ENTRY_DELIMITER@).last(),
            )
            &&& 0 <= limit
        }),
    ensures
        said_before(file_memory::entries_in(file_memory::added(raw, content, limit)), content),
{
    file_memory::law_newest_entry_stays(raw, content, limit);
    let entries = file_memory::entries_in(file_memory::added(raw, content, limit));
    let i = entries.len() - 1;
    let l = unicode::lowercase(content);
    assert(entries[i] == content);
    assert(l.subrange(0, l.len() as int) =~= l);
    assert(text::occurs_at(l, l, 0));
}

/// JSON in a closed fence, on lines of its own, is read as the JSON itself without the white space
/// around it.
pub proof fn law_fence_is_taken_off(json: Seq<char>)
    requires
        text::found(json, "\n```"@) is None,
        !text::begins(json, "```"@),
    ensures
        json_part("```json\n"@ + json + "\n```"@) == text::trimmed(json),
        json_part("```\n"@ + json + "\n```"@) == text::trimmed(json),
{
    reveal_strlit("```json\n");
    reveal_strlit("```\n");
    reveal_strlit("```json");
    reveal_strlit("```");
    lemma_in_fence("```json"@, json);
    lemma_in_fence("```"@, json);
    assert("```json"@ + "\n"@ =~= "```json\n"@) by {
        reveal_strlit("\n");
    }
    assert("```"@ + "\n"@ =~= "```\n"@) by {
        reveal_strlit("\n");
    }
}

proof fn lemma_in_fence(fence: Seq<char>, json: Seq<char>)
    requires
        fence == "```json"@ || fence == "```"@,
        text::found(json, "\n```"@) is None,
        !text::begins(json, "```"@),
    ensures
        json_part(fence + "\n"@ + json + "\n```"@) == text::trimmed(json),
{
    reveal_strlit("```json");
    reveal_strlit("```");
    reveal_strlit("\n```");
    reveal_strlit("\n");
    let t = fence + "\n"@ + json + "\n```"@;
    let n = json.len() as int;
    let m = fence.len() as int;
    text::lemma_trimmed_is(t);
    assert(t.first() == '`' && t.last() == '`');
    assert(text::trimmed(t) == t);
    assert(t.subrange(0, m) =~= fence);
    assert(t.subrange(m + 1 + n, m + 5 + n) =~= "\n```"@);
    let inner = t.subrange(m, m + 1 + n);
    assert(inner =~= seq!['\n'] + json);
    text::lemma_found_from(json, "\n```"@, 0);
    assert forall|j: int| 0 <= j < m + 1 + n implies !text::occurs_at(t, "\n```"@, j) by {
        if text::occurs_at(t, "\n```"@, j) {
            let cut = t.subrange(j, j + 4);
            assert(cut[0] == '\n' && cut[1] == '`' && cut[2] == '`' && cut[3] == '`');
            assert(t[j] == '\n' && t[j + 1] == '`' && t[j + 2] == '`' && t[j + 3] == '`');
            if j < m {
                assert(t[j] == fence[j]);
            } else if j == m {
                assert(t[m + 1 + n] == '\n');
                if n >= 3 {
                    assert(json[0] == t[m + 1] && json[1] == t[m + 2] && json[2] == t[m + 3]);
                    assert(json.subrange(0, 3) =~= "```"@);
                }
            } else if j + 4 <= m + 1 + n {
                assert(json.subrange(j - m - 1, j - m + 3) =~= cut);
                assert(text::occurs_at(json, "\n```"@, j - m - 1));
            } else {
                assert(t[m + 1 + n] == '\n');
            }
        }
    }
    text::lemma_found_is(t, "\n```"@, 0, m + 1 + n);
    if fence == "```"@ && text::begins(t, "```json"@) {
        assert(t.subrange(0, 7)[3] == "```json"@[3]);
        assert(t[3] == '\n');
    }
    assert(inner.drop_first() =~= json);
    assert(text::left_trimmed(inner) == text::left_trimmed(json));
    assert(text::trimmed(inner) == text::trimmed(json));
}

/// A review looks at the end of a conversation: at as many messages as its window holds, in their
/// order, or at all of them.
pub proof fn law_review_sees_the_end(before: Seq<MessageView>, end: Seq<MessageView>, n: int)
    ensures
        last_messages(before + end, end.len() as int) == end,
        n >= end.len() ==> last_messages(end, n) == end,
{
    assert((before + end).skip(before.len() as int) =~= end);
    if before.len() == 0 {
        assert(before + end =~= end);
    }
}

/// The model is shown one more message behind those before it, under the name of its role; a
/// message without content adds nothing.
pub proof fn law_each_message_is_shown(ms: Seq<MessageView>, m: MessageView)
    ensures
        ({
            let before = conversation_text(ms);
            let after = conversation_text(ms.push(m));
            &&& m.content is None ==> after == before
            &&& m.content is Some && m.content->0.len() == 0 ==> after == before
            &&& m.content is Some && m.content->0.len() > 0 ==> {
                let content = m.content->0;
                &&& m.role == MessageRole::System ==> after == before + "["@ + "system"@ + "]: "@
                    + content + "\n\n"@
                &&& m.role == MessageRole::User ==> after == before + "["@ + "user"@ + "]: "@
                    + content + "\n\n"@
                &&& m.role == MessageRole::Assistant ==> after == before + "["@ + "assistant"@
                    + "]: "@ + content + "\n\n"@
                &&& m.role == MessageRole::Tool ==> after == before + "["@ + "tool"@ + "]: "@
                    + content + "\n\n"@
            }
        }),
{
    assert(ms.push(m).drop_last() =~= ms);
}

/// The contents of all messages are shown, in their order.
pub proof fn law_conversation_is_shown(ms: Seq<MessageView>, i: int, j: int)
    requires
        0 <= i < ms.len(),
        ms[i].content is Some,
        ms[i].content->0.len() > 0,
    ensures
        text::includes(conversation_text(ms), ms[i].content->0),
        i < j < ms.len() && ms[j].content is Some && ms[j].content->0.len() > 0
            ==> text::stands_before(
            conversation_text(ms),
            ms[i].content->0,
            ms[j].content->0,
        ),
    decreases ms.len(),
{
    let front = ms.drop_last();
    let before = conversation_text(front);
    let last = models::text_or_empty(ms.last().content);
    let x = ms[i].content->0;
    let tail = if last.len() > 0 {
        "["@ + role_name(ms.last().role) + "]: "@ + last + "\n\n"@
    } else {
        Seq::empty()
    };
    assert(conversation_text(ms) =~= before + tail);
    if i == ms.len() - 1 {
        let head = before + "["@ + role_name(ms.last().role) + "]: "@;
        assert(conversation_text(ms) == head + x + "\n\n"@);
        text::law_parts_are_in_the_whole(head, x, "\n\n"@);
    } else {
        assert(front[i] == ms[i]);
        law_conversation_is_shown(front, i, j);
        text::lemma_includes_within(Seq::empty(), before, tail, x);
        assert(Seq::<char>::empty() + before + tail =~= conversation_text(ms));
        if i < j < ms.len() && ms[j].content is Some && ms[j].content->0.len() > 0 {
            let y = ms[j].content->0;
            if j < front.len() {
                assert(front[j] == ms[j]);
                text::lemma_stands_before_within(Seq::empty(), before, tail, x, y);
            } else {
                let at = choose|at: int| text::occurs_at(before, x, at);
                let a = before.take(at);
                let c = before.skip(at + x.len());
                assert(before =~= a + before.subrange(at, at + x.len()) + c);
                let mid = c + "["@ + role_name(ms.last().role) + "]: "@;
                assert(conversation_text(ms) =~= a + x + mid + y + "\n\n"@);
            }
        }
    }
}

/// An answer without a fence at its beginning, or without a line that closes it, is taken whole,
/// without the white space around it.
pub proof fn law_answers_without_fence_are_whole(answer: Seq<char>)
    ensures
        !text::begins(text::trimmed(answer), "```"@) ==> json_part(answer) == text::trimmed(answer),
        !text::includes(answer, "\n```"@) ==> json_part(answer) == text::trimmed(answer),
{
    let t = text::trimmed(answer);
    reveal_strlit("```json");
    reveal_strlit("```");
    if text::begins(t, "```json"@) {
        assert(t.subrange(0, 3) =~= t.subrange(0, 7).subrange(0, 3));
        assert("```json"@.subrange(0, 3) =~= "```"@);
    }
    if !text::includes(answer, "\n```"@) {
        text::lemma_found_from(t, "\n```"@, 0);
        match text::found(t, "\n```"@) {
            Some(i) => {
                assert(text::occurs_at(t, "\n```"@, i));
                text::law_trimming_takes_only_space(answer);
                lemma_trimmed_is_part(answer);
                text::law_includes_is_transitive(answer, t, "\n```"@);
            },
            None => {},
        }
    }
}

proof fn lemma_trimmed_is_part(s: Seq<char>)
    ensures
        text::includes(s, text::trimmed(s)),
{
    text::law_trimming_takes_only_space(s);
    let (a, b) = choose|a: Seq<char>, b: Seq<char>| #![trigger a + text::trimmed(s) + b]
        s == a + text::trimmed(s) + b && text::all_space(a) && text::all_space(b);
    text::law_parts_are_in_the_whole(a, text::trimmed(s), b);
}

/// Actions are carried out one after the other: doing some and then others is doing all of them,
/// and they are counted together.
pub proof fn law_actions_follow_each_other(
    memory: Seq<char>,
    user: Seq<char>,
    memory_limit: int,
    user_limit: int,
    first: Seq<ReviewAction>,
    then: Seq<ReviewAction>,
)
    ensures
        ({
            let a = actions_result(memory, user, memory_limit, user_limit, first);
            let b = actions_result(a.0, a.1, memory_limit, user_limit, then);
            actions_result(memory, user, memory_limit, user_limit, first + then) == (
                b.0,
                b.1,
                a.2 + b.2,
            )
        }),
        actions_result(memory, user, memory_limit, user_limit, Seq::empty()) == (memory, user, 0nat),
    decreases then.len(),
{
    if then.len() == 0 {
        assert(first + then =~= first);
    } else {
        law_actions_follow_each_other(
            memory,
            user,
            memory_limit,
            user_limit,
            first,
            then.drop_last(),
        );
        assert((first + then).drop_last() =~= first + then.drop_last());
    }
}

/// An action changes only the file that it names; one that names neither changes none and does not
/// count. What counts is at most the action itself.
pub proof fn law_actions_keep_to_their_file(
    memory: Seq<char>,
    user: Seq<char>,
    memory_limit: int,
    user_limit: int,
    a: ReviewAction,
)
    ensures
        ({
            let r = actions_result(memory, user, memory_limit, user_limit, seq![a]);
            &&& a.target@ == "memory"@ ==> r.1 == user
            &&& a.target@ == "user"@ ==> r.0 == memory
            &&& a.target@ != "memory"@ && a.target@ != "user"@ ==> r == (memory, user, 0nat)
            &&& r.2 <= 1
            &&& r.2 == 0 ==> r.0 == memory && r.1 == user
        }),
{
    reveal_with_fuel(actions_result, 2);
    reveal_strlit("memory");
    reveal_strlit("user");
    assert(seq![a].drop_last() =~= Seq::<ReviewAction>::empty());
    assert("memory"@.len() != "user"@.len());
}

/// A fact that is new is added to the file that is named, within the limit of that file; one that
/// is said there already is not, and one without content neither.
pub proof fn law_new_facts_are_added(
    memory: Seq<char>,
    user: Seq<char>,
    memory_limit: int,
    user_limit: int,
    a: ReviewAction,
)
    requires
        a.action_type == ReviewActionType::Add,
    ensures
        ({
            let r = actions_result(memory, user, memory_limit, user_limit, seq![a]);
            let for_memory = a.target@ == "memory"@;
            let for_user = a.target@ == "user"@;
            &&& a.content is None ==> r == (memory, user, 0nat)
            &&& a.content is Some && for_memory ==> if said_before(
                file_memory::entries_in(memory),
                a.content->0@,
            ) {
                r == (memory, user, 0nat)
            } else {
                r == (file_memory::added(memory, a.content->0@, memory_limit), user, 1nat)
            }
            &&& a.content is Some && for_user ==> if said_before(
                file_memory::entries_in(user),
                a.content->0@,
            ) {
                r == (memory, user, 0nat)
            } else {
                r == (memory, file_memory::added(user, a.content->0@, user_limit), 1nat)
            }
        }),
{
    reveal_with_fuel(actions_result, 2);
    reveal_strlit("memory");
    reveal_strlit("user");
    assert(seq![a].drop_last() =~= Seq::<ReviewAction>::empty());
    assert("memory"@.len() != "user"@.len());
}

/// Replacing puts the new text in the place of the first old one, removing leaves nothing there,
/// and both leave all around it and count; where the old text is not there nothing changes.
pub proof fn law_old_texts_give_way(
    front: Seq<char>,
    back: Seq<char>,
    user: Seq<char>,
    memory_limit: int,
    user_limit: int,
    a: ReviewAction,
)
    requires
        a.target@ == "memory"@,
        a.old is Some,
        a.old->0@.len() > 0,
    ensures
        ({
            let o = a.old->0@;
            let memory = front + o + back;
            let r = actions_result(memory, user, memory_limit, user_limit, seq![a]);
            let missing = actions_result(front, user, memory_limit, user_limit, seq![a]);
            let first = forall|j: int| 0 <= j < front.len() ==> !text::occurs_at(memory, o, j);
            &&& first && a.action_type == ReviewActionType::Replace && a.new is Some ==> r == (
                front + a.new->0@ + back,
                user,
                1nat,
            )
            &&& first && a.action_type == ReviewActionType::Remove ==> r == (
                front + back,
                user,
                1nat,
            )
            &&& a.action_type != ReviewActionType::Add && !text::includes(front, o) ==> missing == (
                front,
                user,
                0nat,
            )
        }),
{
    let o = a.old->0@;
    let memory = front + o + back;
    reveal_with_fuel(actions_result, 2);
    assert(seq![a].drop_last() =~= Seq::<ReviewAction>::empty());
    text::law_parts_are_in_the_whole(front, o, back);
    if forall|j: int| 0 <= j < front.len() ==> !text::occurs_at(memory, o, j) {
        if a.new is Some {
            file_memory::law_the_first_one_is_replaced(front, o, back, a.new->0@);
        }
        file_memory::law_the_first_one_is_replaced(front, o, back, Seq::empty());
        assert(front + Seq::<char>::empty() + back =~= front + back);
    }
}

/// A fact counts as said when an entry holds it and when it holds an entry, letter case aside, and
/// only then; entries that are added do not change that.
pub proof fn law_repeats_are_noticed(
    entries: Seq<Seq<char>>,
    entry: Seq<char>,
    content: Seq<char>,
)
    ensures
        said_before(entries.push(entry), content) <==> said_before(entries, content)
            || text::includes(unicode::lowercase(entry), unicode::lowercase(content))
            || text::includes(unicode::lowercase(content), unicode::lowercase(entry)),
        !said_before(Seq::empty(), content),
{
    let all = entries.push(entry);
    assert(all[entries.len() as int] == entry);
    if said_before(entries, content) {
        let i = choose|i: int| #![trigger entries[i]]
            0 <= i < entries.len() && overlapping(
                unicode::lowercase(entries[i]),
                unicode::lowercase(content),
            );
        assert(all[i] == entries[i]);
    }
    if said_before(all, content) {
        let i = choose|i: int| #![trigger all[i]]
            0 <= i < all.len() && overlapping(
                unicode::lowercase(all[i]),
                unicode::lowercase(content),
            );
        if i < entries.len() {
            assert(all[i] == entries[i]);
        }
    }
}

} // verus!
