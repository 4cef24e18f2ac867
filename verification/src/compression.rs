//! Compression of long conversations: tool results are pruned, the first and the last
//! messages are kept, what lies between them becomes one summary, and tool calls and results
//! that have lost each other are taken out.

use crate::bytes;
use crate::models;
use crate::models::{Message, MessageRole, MessageView, ToolCall, ToolCallView};
use crate::number;
use crate::text;
use crate::unicode;
use vstd::prelude::*;

verus! {

// ---------------------------------------------------------------------------
// Estimated size
// ---------------------------------------------------------------------------

/// The content of a message, empty where there is none.
pub open spec fn content_of(m: MessageView) -> Seq<char> {
    models::text_or_empty(m.content)
}

/// The estimated number of tokens of a conversation: a quarter of the characters of each
/// message, rounded down.
pub open spec fn token_estimate(ms: Seq<MessageView>) -> nat
    decreases ms.len(),
{
    if ms.len() == 0 {
        0
    } else {
        token_estimate(ms.drop_last()) + content_of(ms.last()).len() / 4
    }
}

/// The estimate, or the largest number of the machine where it is larger.
pub open spec fn bounded_estimate(ms: Seq<MessageView>) -> int {
    if token_estimate(ms) <= usize::MAX {
        token_estimate(ms) as int
    } else {
        usize::MAX as int
    }
}

/// Adding a message never lowers the estimate.
pub proof fn lemma_estimate_grows(ms: Seq<MessageView>, i: int)
    requires
        0 <= i <= ms.len(),
    ensures
        token_estimate(ms.take(i)) <= token_estimate(ms),
    decreases ms.len() - i,
{
    if i < ms.len() {
        lemma_estimate_grows(ms, i + 1);
        assert(ms.take(i + 1).drop_last() =~= ms.take(i));
    } else {
        assert(ms.take(i) =~= ms);
    }
}

/// The estimated number of tokens of a conversation.
pub fn estimate(list: &Vec<Message>) -> (r: usize)
    ensures
        r == bounded_estimate(models::messages(list@)),
{
    let ghost ms = models::messages(list@);
    let mut total: usize = 0;
    let mut i: usize = 0;
    assert(ms.take(0) =~= Seq::<MessageView>::empty());
    while i < list.len()
        invariant
            i <= list@.len(),
            ms == models::messages(list@),
            total == token_estimate(ms.take(i as int)),
        decreases list@.len() - i,
    {
        let quarter: usize = models::or_empty(&list[i].content).unicode_len() / 4;
        proof {
            assert(ms.take(i + 1).drop_last() =~= ms.take(i as int));
            assert(ms.take(i + 1).last() == list@[i as int]@);
            lemma_estimate_grows(ms, i + 1);
        }
        match total.checked_add(quarter) {
            Some(t) => {
                total = t;
            },
            None => {
                return usize::MAX;
            },
        }
        i = i + 1;
    }
    assert(ms.take(i as int) =~= ms);
    total
}

// ---------------------------------------------------------------------------
// Pruning of tool results
// ---------------------------------------------------------------------------

/// `s` cut behind its first `max` characters, with a mark where something was cut off.
pub open spec fn truncated(s: Seq<char>, max: int) -> Seq<char> {
    if s.len() <= max {
        s
    } else {
        s.take(max) + "..."@
    }
}

/// The message is the result of a tool.
pub open spec fn is_result(m: MessageView) -> bool {
    m.role == MessageRole::Tool && m.content is Some
}

/// What two tool results have in common that count as the same: the name of the tool, and the
/// content.
pub open spec fn result_key(m: MessageView) -> (Seq<char>, Seq<char>) {
    (models::text_or_empty(m.name), content_of(m))
}

/// The first position from `from` on, but at most `i`, of a tool result that is the same as the
/// one at `i`.
pub open spec fn first_same(ms: Seq<MessageView>, i: int, from: int) -> int
    decreases i - from,
{
    if from >= i {
        i
    } else if is_result(ms[from]) && result_key(ms[from]) == result_key(ms[i]) {
        from
    } else {
        first_same(ms, i, from + 1)
    }
}

/// The content of a tool result, shortened where it has more than 500 bytes.
pub open spec fn shortened(m: MessageView) -> Seq<char> {
    let content = content_of(m);
    let lines = number::decimal(text::line_seq(content).len());
    let name = match m.name {
        Some(n) => n,
        None => "tool"@,
    };
    if bytes::byte_len(content) > 500 {
        "["@ + name + " output, "@ + lines + " lines]\n"@ + bytes::byte_prefix(content, 200)
            + "\n... ("@ + lines + " lines total, truncated)"@
    } else {
        content
    }
}

/// The message that stands for the one at `i` after pruning: a tool result that occurred before
/// refers back to it, and one that is long is shortened.
pub open spec fn pruned_at(ms: Seq<MessageView>, i: int) -> MessageView {
    let m = ms[i];
    let first = first_same(ms, i, 0);
    if !is_result(m) {
        m
    } else if first < i {
        models::tool_message(
            models::text_or_empty(m.tool_call_id),
            models::text_or_empty(m.name),
            "[Same result as msg #"@ + number::decimal(first as nat) + " — "@ + number::decimal(
                bytes::byte_len(content_of(m)),
            ) + " chars]"@,
        )
    } else {
        MessageView { content: Some(shortened(m)), ..m }
    }
}

/// The conversation after pruning.
pub open spec fn pruned(ms: Seq<MessageView>) -> Seq<MessageView> {
    Seq::new(ms.len(), |i: int| pruned_at(ms, i))
}

/// Every tool result that has to be shortened can be cut behind 200 bytes.
pub open spec fn prunable(ms: Seq<MessageView>) -> bool {
    forall|i: int| #![trigger ms[i]]
        0 <= i < ms.len() && is_result(ms[i]) && first_same(ms, i, 0) == i && bytes::byte_len(
            content_of(ms[i]),
        ) > 500 ==> bytes::cuttable(content_of(ms[i]), 200)
}

fn truncate(s: &str, max_len: usize) -> (r: String)
    ensures
        r@ == truncated(s@, max_len as int),
{
    if s.unicode_len() <= max_len {
        s.to_owned()
    } else {
        text::concat2(text::first_chars(s, max_len), "...")
    }
}

fn same_result(a: &Message, b: &Message) -> (r: bool)
    ensures
        r == (result_key(a@) == result_key(b@)),
{
    text::same(models::or_empty(&a.name), models::or_empty(&b.name)) && text::same(
        models::or_empty(&a.content),
        models::or_empty(&b.content),
    )
}

fn is_tool_result(m: &Message) -> (r: bool)
    ensures
        r == is_result(m@),
{
    m.role == MessageRole::Tool && m.content.is_some()
}

fn find_same(list: &Vec<Message>, i: usize) -> (r: usize)
    requires
        i < list@.len(),
    ensures
        r == first_same(models::messages(list@), i as int, 0),
        r <= i,
{
    let ghost ms = models::messages(list@);
    let mut j: usize = 0;
    while j < i
        invariant
            j <= i < list@.len(),
            ms == models::messages(list@),
            first_same(ms, i as int, 0) == first_same(ms, i as int, j as int),
        decreases i - j,
    {
        assert(ms[j as int] == list@[j as int]@);
        assert(ms[i as int] == list@[i as int]@);
        if is_tool_result(&list[j]) && same_result(&list[j], &list[i]) {
            return j;
        }
        j = j + 1;
    }
    i
}

fn shorten(m: &Message) -> (r: String)
    requires
        bytes::byte_len(content_of(m@)) > 500 ==> bytes::cuttable(content_of(m@), 200),
    ensures
        r@ == shortened(m@),
{
    let content: &str = models::or_empty(&m.content);
    if bytes::len(content) > 500 {
        let lines: String = number::show_size(text::lines(content).len());
        let name: &str = match &m.name {
            Some(n) => n.as_str(),
            None => "tool",
        };
        let mut out: String = text::concat5("[", name, " output, ", lines.as_str(), " lines]\n");
        out.append(bytes::prefix(content, 200));
        out.append("\n... (");
        out.append(lines.as_str());
        out.append(" lines total, truncated)");
        out
    } else {
        content.to_owned()
    }
}

// ---------------------------------------------------------------------------
// Summary
// ---------------------------------------------------------------------------

/// What a message contributes to the list of actions.
pub open spec fn action(m: MessageView) -> Option<Seq<char>> {
    let content = content_of(m);
    match m.role {
        MessageRole::User => if content.len() > 0 {
            Some("User asked: "@ + truncated(content, 80))
        } else {
            None
        },
        MessageRole::Assistant => if content.len() > 0 {
            Some("Agent responded: "@ + truncated(content, 80))
        } else {
            None
        },
        MessageRole::Tool => match m.name {
            Some(name) => Some("Ran tool "@ + name + ": "@ + truncated(content, 50)),
            None => None,
        },
        MessageRole::System => None,
    }
}

/// The text, in small letters, speaks of a decision.
pub open spec fn tells_decision(lower: Seq<char>) -> bool {
    ||| text::includes(lower, "decided"@)
    ||| text::includes(lower, "chosen"@)
    ||| text::includes(lower, "will use"@)
}

/// What a message contributes to the list of decisions.
pub open spec fn decision(m: MessageView) -> Option<Seq<char>> {
    if m.role == MessageRole::Assistant && tells_decision(unicode::lowercase(content_of(m))) {
        Some(truncated(content_of(m), 80))
    } else {
        None
    }
}

/// The actions of a conversation, in order.
pub open spec fn actions(ms: Seq<MessageView>) -> Seq<Seq<char>>
    decreases ms.len(),
{
    if ms.len() == 0 {
        Seq::empty()
    } else {
        match action(ms.last()) {
            Some(a) => actions(ms.drop_last()).push(a),
            None => actions(ms.drop_last()),
        }
    }
}

/// The decisions of a conversation, in order.
pub open spec fn decisions(ms: Seq<MessageView>) -> Seq<Seq<char>>
    decreases ms.len(),
{
    if ms.len() == 0 {
        Seq::empty()
    } else {
        match decision(ms.last()) {
            Some(d) => decisions(ms.drop_last()).push(d),
            None => decisions(ms.drop_last()),
        }
    }
}

/// The first thing that the user asked for; empty where they asked for nothing.
pub open spec fn active_task(ms: Seq<MessageView>) -> Seq<char>
    decreases ms.len(),
{
    if ms.len() == 0 {
        Seq::empty()
    } else {
        let before = active_task(ms.drop_last());
        if before.len() == 0 && ms.last().role == MessageRole::User {
            truncated(content_of(ms.last()), 100)
        } else {
            before
        }
    }
}

/// The lines of the summary of a conversation.
pub open spec fn summary_lines(ms: Seq<MessageView>) -> Seq<Seq<char>> {
    let head = seq!["## Conversation Summary"@];
    let with_task = if active_task(ms).len() > 0 {
        head.push("**Active Task:** "@ + active_task(ms))
    } else {
        head
    };
    let with_actions = if actions(ms).len() > 0 {
        with_task.push("**Actions:** "@ + text::joined(actions(ms), "; "@))
    } else {
        with_task
    };
    if decisions(ms).len() > 0 {
        with_actions.push("**Key Decisions:** "@ + text::joined(decisions(ms), "; "@))
    } else {
        with_actions
    }
}

/// The summary of a conversation.
pub open spec fn summary_text(ms: Seq<MessageView>) -> Seq<char> {
    text::joined(summary_lines(ms), "\n"@)
}

fn action_of(m: &Message) -> (r: Option<String>)
    ensures
        models::opt_text(r) == action(m@),
{
    let content: &str = models::or_empty(&m.content);
    let some: bool = content.unicode_len() > 0;
    match m.role {
        MessageRole::User => if some {
            Some(text::concat2("User asked: ", truncate(content, 80).as_str()))
        } else {
            None
        },
        MessageRole::Assistant => if some {
            Some(text::concat2("Agent responded: ", truncate(content, 80).as_str()))
        } else {
            None
        },
        MessageRole::Tool => match &m.name {
            Some(name) => Some(
                text::concat4("Ran tool ", name.as_str(), ": ", truncate(content, 50).as_str()),
            ),
            None => None,
        },
        MessageRole::System => None,
    }
}

fn decision_of(m: &Message) -> (r: Option<String>)
    ensures
        models::opt_text(r) == decision(m@),
{
    let content: &str = models::or_empty(&m.content);
    let lower: String = unicode::to_lower(content);
    if m.role == MessageRole::Assistant && decides(lower.as_str()) {
        Some(truncate(content, 80))
    } else {
        None
    }
}

/// Whether a text in small letters speaks of a decision.
pub fn decides(lower: &str) -> (r: bool)
    ensures
        r == tells_decision(lower@),
{
    text::contains(lower, "decided") || text::contains(lower, "chosen") || text::contains(
        lower,
        "will use",
    )
}

// ---------------------------------------------------------------------------
// Calls and results that have lost each other
// ---------------------------------------------------------------------------

/// The tool calls that the model asks for in a message.
pub open spec fn calls_of(m: MessageView) -> Seq<ToolCallView> {
    if m.role == MessageRole::Assistant && m.tool_calls is Some {
        m.tool_calls->0
    } else {
        Seq::empty()
    }
}

/// One of the calls has the identifier.
pub open spec fn has_id(cs: Seq<ToolCallView>, id: Seq<char>) -> bool {
    exists|k: int| 0 <= k < cs.len() && (#[trigger] cs[k]).id == id
}

/// One of the calls in the message has the identifier.
pub open spec fn makes_call(m: MessageView, id: Seq<char>) -> bool {
    has_id(calls_of(m), id)
}

/// The message is the result of the call with the identifier.
pub open spec fn answers_call(m: MessageView, id: Seq<char>) -> bool {
    m.role == MessageRole::Tool && m.tool_call_id == Some(id)
}

/// A message before `i` calls with the identifier.
pub open spec fn called_before(ms: Seq<MessageView>, i: int, id: Seq<char>) -> bool {
    exists|j: int| 0 <= j < i && makes_call(#[trigger] ms[j], id)
}

/// A message behind `i` is the result of the call with the identifier.
pub open spec fn answered_after(ms: Seq<MessageView>, i: int, id: Seq<char>) -> bool {
    exists|k: int| i < k < ms.len() && answers_call(#[trigger] ms[k], id)
}

/// Nothing but results follows the message at `i`, so that those of its calls that have none may
/// still get one.
pub open spec fn still_open(ms: Seq<MessageView>, i: int) -> bool {
    forall|k: int| i < k < ms.len() ==> (#[trigger] ms[k]).role == MessageRole::Tool
}

/// A call of the message at `i` has its result, or may still get it.
pub open spec fn settled(ms: Seq<MessageView>, i: int, id: Seq<char>) -> bool {
    answered_after(ms, i, id) || still_open(ms, i)
}

/// The message at `i` is no result, or the result of a call before it.
pub open spec fn has_its_call(ms: Seq<MessageView>, i: int) -> bool {
    ms[i].role == MessageRole::Tool ==> ms[i].tool_call_id is Some && called_before(
        ms,
        i,
        ms[i].tool_call_id->0,
    )
}

/// Every call of the message at `i` has its result, or may still get it.
pub open spec fn has_its_results(ms: Seq<MessageView>, i: int) -> bool {
    forall|k: int|
        0 <= k < calls_of(ms[i]).len() ==> settled(ms, i, (#[trigger] calls_of(ms[i])[k]).id)
}

/// Every tool result answers a call of an earlier message.
pub open spec fn results_paired(ms: Seq<MessageView>) -> bool {
    forall|i: int| 0 <= i < ms.len() ==> #[trigger] has_its_call(ms, i)
}

/// Every tool call has its result, or may still get it.
pub open spec fn calls_paired(ms: Seq<MessageView>) -> bool {
    forall|i: int| 0 <= i < ms.len() ==> #[trigger] has_its_results(ms, i)
}

/// Those of the calls of the message at `i` that have their result, or may still get it.
pub open spec fn settled_calls(ms: Seq<MessageView>, i: int, cs: Seq<ToolCallView>) -> Seq<
    ToolCallView,
>
    decreases cs.len(),
{
    if cs.len() == 0 {
        cs
    } else {
        let rest = settled_calls(ms, i, cs.drop_last());
        if settled(ms, i, cs.last().id) {
            rest.push(cs.last())
        } else {
            rest
        }
    }
}

/// What stays of the message at `i`: of a result without its call nothing; of a message with
/// calls those that are settled, and nothing where it has neither calls nor content any more.
pub open spec fn repaired(ms: Seq<MessageView>, i: int) -> Option<MessageView> {
    let m = ms[i];
    let kept = settled_calls(ms, i, calls_of(m));
    if !has_its_call(ms, i) {
        None
    } else if kept.len() == calls_of(m).len() {
        Some(m)
    } else if kept.len() > 0 {
        Some(MessageView { tool_calls: Some(kept), ..m })
    } else if content_of(m).len() > 0 {
        Some(MessageView { tool_calls: None, ..m })
    } else {
        None
    }
}

/// What stays of the first `n` messages.
pub open spec fn repaired_until(ms: Seq<MessageView>, n: int) -> Seq<MessageView>
    decreases n,
{
    if n <= 0 {
        Seq::empty()
    } else {
        match repaired(ms, n - 1) {
            Some(m) => repaired_until(ms, n - 1).push(m),
            None => repaired_until(ms, n - 1),
        }
    }
}

/// The conversation without calls and results that have lost each other.
pub open spec fn sanitized(ms: Seq<MessageView>) -> Seq<MessageView> {
    repaired_until(ms, ms.len() as int)
}

/// Where the message at `i` stands among what stays.
pub open spec fn place(ms: Seq<MessageView>, i: int) -> int {
    repaired_until(ms, i).len() as int
}

fn is_called_before(list: &Vec<Message>, i: usize, id: &str) -> (r: bool)
    requires
        i <= list@.len(),
    ensures
        r == called_before(models::messages(list@), i as int, id@),
{
    let ghost ms = models::messages(list@);
    let mut j: usize = 0;
    while j < i
        invariant
            j <= i <= list@.len(),
            ms == models::messages(list@),
            !called_before(ms, j as int, id@),
        decreases i - j,
    {
        let m: &Message = &list[j];
        assert(ms[j as int] == m@);
        if m.role == MessageRole::Assistant {
            match &m.tool_calls {
                Some(cs) => {
                    let mut k: usize = 0;
                    while k < cs.len()
                        invariant
                            k <= cs@.len(),
                            j < i <= list@.len(),
                            ms == models::messages(list@),
                            calls_of(ms[j as int]) == models::calls(cs@),
                            forall|l: int| 0 <= l < k ==> (#[trigger] models::calls(cs@)[l]).id
                                != id@,
                        decreases cs@.len() - k,
                    {
                        assert(models::calls(cs@)[k as int] == cs@[k as int]@);
                        if text::same(cs[k].id.as_str(), id) {
                            assert(has_id(calls_of(ms[j as int]), id@));
                            return true;
                        }
                        k = k + 1;
                    }
                },
                None => {},
            }
        }
        assert(!makes_call(ms[j as int], id@));
        j = j + 1;
    }
    false
}

fn is_answered_after(list: &Vec<Message>, i: usize, id: &str) -> (r: bool)
    requires
        i < list@.len(),
    ensures
        r == answered_after(models::messages(list@), i as int, id@),
{
    let ghost ms = models::messages(list@);
    let n: usize = list.len();
    let mut k: usize = i + 1;
    while k < n
        invariant
            i < k <= n == list@.len(),
            ms == models::messages(list@),
            forall|l: int| i < l < k ==> !answers_call(#[trigger] ms[l], id@),
        decreases list@.len() - k,
    {
        let m: &Message = &list[k];
        assert(ms[k as int] == m@);
        if m.role == MessageRole::Tool {
            match &m.tool_call_id {
                Some(own) => {
                    if text::same(own.as_str(), id) {
                        return true;
                    }
                },
                None => {},
            }
        }
        k = k + 1;
    }
    false
}

fn is_still_open(list: &Vec<Message>, i: usize) -> (r: bool)
    requires
        i < list@.len(),
    ensures
        r == still_open(models::messages(list@), i as int),
{
    let ghost ms = models::messages(list@);
    let n: usize = list.len();
    let mut k: usize = i + 1;
    while k < n
        invariant
            i < k <= n == list@.len(),
            ms == models::messages(list@),
            forall|l: int| i < l < k ==> (#[trigger] ms[l]).role == MessageRole::Tool,
        decreases list@.len() - k,
    {
        assert(ms[k as int] == list@[k as int]@);
        if list[k].role != MessageRole::Tool {
            return false;
        }
        k = k + 1;
    }
    true
}

fn keep_settled(list: &Vec<Message>, i: usize, cs: &Vec<ToolCall>) -> (r: Vec<ToolCall>)
    requires
        i < list@.len(),
    ensures
        models::calls(r@) == settled_calls(
            models::messages(list@),
            i as int,
            models::calls(cs@),
        ),
{
    let ghost ms = models::messages(list@);
    let ghost all = models::calls(cs@);
    let open: bool = is_still_open(list, i);
    let mut out: Vec<ToolCall> = Vec::new();
    let mut k: usize = 0;
    assert(all.take(0) =~= Seq::<ToolCallView>::empty());
    assert(models::calls(out@) =~= Seq::<ToolCallView>::empty());
    while k < cs.len()
        invariant
            k <= cs@.len(),
            i < list@.len(),
            ms == models::messages(list@),
            all == models::calls(cs@),
            open == still_open(ms, i as int),
            models::calls(out@) == settled_calls(ms, i as int, all.take(k as int)),
        decreases cs@.len() - k,
    {
        let ghost before = models::calls(out@);
        proof {
            assert(all.take(k + 1).drop_last() =~= all.take(k as int));
            assert(all.take(k + 1).last() == cs@[k as int]@);
        }
        if open || is_answered_after(list, i, cs[k].id.as_str()) {
            out.push(cs[k].clone());
            assert(models::calls(out@) =~= before.push(cs@[k as int]@));
        }
        k = k + 1;
    }
    assert(all.take(k as int) =~= all);
    out
}

fn repair(list: &Vec<Message>, i: usize) -> (r: Option<Message>)
    requires
        i < list@.len(),
    ensures
        match r {
            Some(m) => repaired(models::messages(list@), i as int) == Some(m@),
            None => repaired(models::messages(list@), i as int) is None,
        },
{
    let ghost ms = models::messages(list@);
    let m: &Message = &list[i];
    assert(ms[i as int] == m@);
    if m.role == MessageRole::Tool {
        assert(settled_calls(ms, i as int, calls_of(m@)).len() == 0);
        let paired: bool = match &m.tool_call_id {
            Some(id) => is_called_before(list, i, id.as_str()),
            None => false,
        };
        return if paired {
            Some(m.clone())
        } else {
            None
        };
    }
    if m.role != MessageRole::Assistant {
        assert(settled_calls(ms, i as int, calls_of(m@)).len() == 0);
        return Some(m.clone());
    }
    match &m.tool_calls {
        Some(cs) => {
            let kept: Vec<ToolCall> = keep_settled(list, i, cs);
            if kept.len() == cs.len() {
                Some(m.clone())
            } else if kept.len() > 0 {
                let mut rest: Message = m.clone();
                rest.tool_calls = Some(kept);
                Some(rest)
            } else if models::or_empty(&m.content).unicode_len() > 0 {
                let mut rest: Message = m.clone();
                rest.tool_calls = None;
                Some(rest)
            } else {
                None
            }
        },
        None => {
            assert(settled_calls(ms, i as int, calls_of(m@)).len() == 0);
            Some(m.clone())
        },
    }
}

proof fn lemma_place(ms: Seq<MessageView>, n: int, i: int)
    requires
        0 <= i < n <= ms.len(),
    ensures
        place(ms, i) <= place(ms, n),
        repaired(ms, i) is Some ==> place(ms, i) < place(ms, n) && repaired_until(ms, n)[place(
            ms,
            i,
        )] == repaired(ms, i)->0,
    decreases n,
{
    if i < n - 1 {
        lemma_place(ms, n - 1, i);
    }
}

proof fn lemma_origin(ms: Seq<MessageView>, n: int, p: int) -> (i: int)
    requires
        0 <= n <= ms.len(),
        0 <= p < place(ms, n),
    ensures
        0 <= i < n,
        place(ms, i) == p,
        repaired(ms, i) == Some(repaired_until(ms, n)[p]),
    decreases n,
{
    if p < place(ms, n - 1) {
        lemma_origin(ms, n - 1, p)
    } else {
        n - 1
    }
}

proof fn lemma_settled_calls(ms: Seq<MessageView>, i: int, cs: Seq<ToolCallView>)
    ensures
        settled_calls(ms, i, cs).len() <= cs.len(),
        settled_calls(ms, i, cs).len() == cs.len() <==> forall|k: int|
            0 <= k < cs.len() ==> settled(ms, i, (#[trigger] cs[k]).id),
        forall|k: int|
            0 <= k < settled_calls(ms, i, cs).len() ==> settled(
                ms,
                i,
                (#[trigger] settled_calls(ms, i, cs)[k]).id,
            ) && has_id(cs, settled_calls(ms, i, cs)[k].id),
        forall|id: Seq<char>| #[trigger]
            has_id(cs, id) && settled(ms, i, id) ==> has_id(settled_calls(ms, i, cs), id),
    decreases cs.len(),
{
    if cs.len() > 0 {
        let front = cs.drop_last();
        let rest = settled_calls(ms, i, front);
        let all = settled_calls(ms, i, cs);
        lemma_settled_calls(ms, i, front);
        assert forall|k: int| 0 <= k < all.len() implies settled(ms, i, (#[trigger] all[k]).id)
            && has_id(cs, all[k].id) by {
            if k < rest.len() {
                assert(all[k] == rest[k]);
                let l = choose|l: int| 0 <= l < front.len() && (#[trigger] front[l]).id == all[k].id;
                assert(cs[l].id == all[k].id);
            } else {
                assert(cs[cs.len() - 1].id == all[k].id);
            }
        }
        assert forall|id: Seq<char>| #[trigger] has_id(cs, id) && settled(ms, i, id) implies has_id(
            all,
            id,
        ) by {
            let l = choose|l: int| 0 <= l < cs.len() && (#[trigger] cs[l]).id == id;
            if l < front.len() {
                assert(front[l].id == id);
                assert(has_id(front, id));
                let k = choose|k: int| 0 <= k < rest.len() && (#[trigger] rest[k]).id == id;
                assert(all[k].id == id);
            } else {
                assert(all[all.len() - 1].id == id);
            }
        }
        if forall|k: int| 0 <= k < cs.len() ==> settled(ms, i, (#[trigger] cs[k]).id) {
            assert forall|k: int| 0 <= k < front.len() implies settled(
                ms,
                i,
                (#[trigger] front[k]).id,
            ) by {
                assert(front[k] == cs[k]);
            }
            assert(settled(ms, i, cs[cs.len() - 1].id));
        }
        if all.len() == cs.len() {
            assert forall|k: int| 0 <= k < cs.len() implies settled(
                ms,
                i,
                (#[trigger] cs[k]).id,
            ) by {
                if k < front.len() {
                    assert(front[k] == cs[k]);
                }
            }
        }
    }
}

proof fn lemma_repaired(ms: Seq<MessageView>, i: int)
    requires
        0 <= i < ms.len(),
    ensures
        has_its_call(ms, i) && has_its_results(ms, i) ==> repaired(ms, i) == Some(ms[i]),
        match repaired(ms, i) {
            Some(m) => {
                &&& m.role == ms[i].role
                &&& m.tool_call_id == ms[i].tool_call_id
                &&& has_its_call(ms, i)
                &&& forall|id: Seq<char>| #[trigger]
                    makes_call(m, id) == (makes_call(ms[i], id) && settled(ms, i, id))
            },
            None => forall|id: Seq<char>|
                !(#[trigger] makes_call(ms[i], id) && settled(ms, i, id)),
        },
{
    let cs = calls_of(ms[i]);
    let kept = settled_calls(ms, i, cs);
    lemma_settled_calls(ms, i, cs);
    match repaired(ms, i) {
        Some(m) => {
            assert forall|id: Seq<char>| #[trigger] makes_call(m, id) == (makes_call(ms[i], id)
                && settled(ms, i, id)) by {
                if kept.len() == cs.len() {
                    if makes_call(ms[i], id) {
                        let k = choose|k: int| 0 <= k < cs.len() && (#[trigger] cs[k]).id == id;
                        assert(settled(ms, i, cs[k].id));
                    }
                } else {
                    assert(calls_of(m) =~= kept);
                    if has_id(kept, id) {
                        let k = choose|k: int| 0 <= k < kept.len() && (#[trigger] kept[k]).id == id;
                        assert(has_id(cs, kept[k].id));
                    }
                    assert(makes_call(ms[i], id) == has_id(cs, id));
                }
            }
        },
        None => {
            assert forall|id: Seq<char>| !(#[trigger] makes_call(ms[i], id) && settled(
                ms,
                i,
                id,
            )) by {
                if has_id(cs, id) && settled(ms, i, id) {
                    assert(has_id(kept, id));
                }
            }
        },
    }
}

// ---------------------------------------------------------------------------
// The compressor
// ---------------------------------------------------------------------------

/// Keeps the length of a conversation within bounds.
pub struct ContextCompressor {
    pub enabled: bool,
    /// From this number of tokens on a conversation is compressed.
    pub threshold_tokens: usize,
    pub protect_first_n: usize,
    pub protect_last_n: usize,
    /// What the last compressions saved: the tokens saved, and the tokens before.
    pub last_compression_savings: Vec<(usize, usize)>,
}

/// Less than a tenth of the tokens was saved.
pub open spec fn saved_little(s: (usize, usize)) -> bool {
    s.1 == 0 || 10 * s.0 < s.1
}

/// The two last compressions both saved little.
pub open spec fn thrashing(savings: Seq<(usize, usize)>) -> bool {
    &&& savings.len() >= 2
    &&& saved_little(savings[savings.len() - 1])
    &&& saved_little(savings[savings.len() - 2])
}

/// The list with one more entry, the last five of it.
pub open spec fn last_five(savings: Seq<(usize, usize)>) -> Seq<(usize, usize)> {
    if savings.len() > 5 {
        savings.drop_first()
    } else {
        savings
    }
}

/// The protected messages, with the summary of those between in their place.
pub open spec fn assembled(ms: Seq<MessageView>, first: int, last: int) -> Seq<MessageView> {
    let all = pruned(ms);
    let middle = all.subrange(first, all.len() - last);
    all.take(first).push(
        models::plain_message(
            MessageRole::Assistant,
            "[Compressed summary of "@ + number::decimal(middle.len()) + " messages]:\n"@
                + summary_text(middle),
        ),
    ) + all.skip(all.len() - last)
}

/// The conversation after compression, where it has more messages than are protected.
pub open spec fn compressed(ms: Seq<MessageView>, first: int, last: int) -> Seq<MessageView> {
    sanitized(assembled(ms, first, last))
}

fn little(s: (usize, usize)) -> (r: bool)
    ensures
        r == saved_little(s),
{
    s.1 == 0 || (s.0 as u128) * 10 < s.1 as u128
}

impl ContextCompressor {
    /// A compressor that acts from `threshold_tokens` tokens on.
    pub fn new(
        enabled: bool,
        threshold_tokens: usize,
        protect_first_n: usize,
        protect_last_n: usize,
    ) -> (r: Self)
        ensures
            r.enabled == enabled,
            r.threshold_tokens == threshold_tokens,
            r.protect_first_n == protect_first_n,
            r.protect_last_n == protect_last_n,
            r.last_compression_savings@.len() == 0,
    {
        ContextCompressor {
            enabled,
            threshold_tokens,
            protect_first_n,
            protect_last_n,
            last_compression_savings: Vec::new(),
        }
    }

    /// Whether a conversation of that many tokens should be compressed.
    pub fn should_compress(&self, current_tokens: usize) -> (r: bool)
        ensures
            r == (self.enabled && !thrashing(self.last_compression_savings@) && current_tokens
                >= self.threshold_tokens),
    {
        if !self.enabled {
            return false;
        }
        let n: usize = self.last_compression_savings.len();
        if n >= 2 && little(self.last_compression_savings[n - 1]) && little(
            self.last_compression_savings[n - 2],
        ) {
            return false;
        }
        current_tokens >= self.threshold_tokens
    }

    /// Whether [`ContextCompressor::compress`] can take the conversation: a tool result that it
    /// has to shorten must not have a character across its byte 200.
    pub fn can_compress(&self, list: &Vec<Message>) -> (r: bool)
        requires
            self.protect_first_n + self.protect_last_n <= usize::MAX,
        ensures
            r == (list@.len() <= self.protect_first_n + self.protect_last_n || prunable(
                models::messages(list@),
            )),
    {
        if list.len() <= self.protect_first_n + self.protect_last_n {
            return true;
        }
        let ghost ms = models::messages(list@);
        let mut i: usize = 0;
        while i < list.len()
            invariant
                i <= list@.len(),
                ms == models::messages(list@),
                list@.len() > self.protect_first_n + self.protect_last_n,
                forall|j: int| #![trigger ms[j]]
                    0 <= j < i && is_result(ms[j]) && first_same(ms, j, 0) == j && bytes::byte_len(
                        content_of(ms[j]),
                    ) > 500 ==> bytes::cuttable(content_of(ms[j]), 200),
            decreases list@.len() - i,
        {
            assert(ms[i as int] == list@[i as int]@);
            let content: &str = models::or_empty(&list[i].content);
            if is_tool_result(&list[i]) && find_same(list, i) == i && bytes::len(content) > 500
                && !bytes::can_cut(content, 200) {
                return false;
            }
            i = i + 1;
        }
        true
    }

    /// Compresses a conversation. Gives the messages, and the summary where there is one. No tool
    /// result is left without its call, and no call without its result.
    pub fn compress(&mut self, list: &Vec<Message>) -> (r: (Vec<Message>, Option<String>))
        requires
            old(self).protect_first_n + old(self).protect_last_n <= usize::MAX,
            list@.len() > old(self).protect_first_n + old(self).protect_last_n ==> prunable(
                models::messages(list@),
            ),
        ensures
            final(self).enabled == old(self).enabled,
            final(self).threshold_tokens == old(self).threshold_tokens,
            final(self).protect_first_n == old(self).protect_first_n,
            final(self).protect_last_n == old(self).protect_last_n,
            ({
                let ms = models::messages(list@);
                let first = old(self).protect_first_n as int;
                let last = old(self).protect_last_n as int;
                let out = models::messages(r.0@);
                if ms.len() <= first + last {
                    &&& out == ms
                    &&& r.1 is None
                    &&& final(self).last_compression_savings@ == old(
                        self,
                    ).last_compression_savings@
                } else {
                    let before = bounded_estimate(ms);
                    let after = bounded_estimate(out);
                    let saved = if before > after {
                        before - after
                    } else {
                        0
                    };
                    &&& out == compressed(ms, first, last)
                    &&& r.1 is Some && exists|p: int|
                        0 <= p < out.len() && (#[trigger] out[p]).role == MessageRole::Assistant
                            && out[p].content is Some && text::finishes(
                            out[p].content->0,
                            (r.1->0)@,
                        )
                    &&& results_paired(out)
                    &&& calls_paired(out)
                    &&& models::opt_text(r.1) == Some(
                        summary_text(pruned(ms).subrange(first, ms.len() - last)),
                    )
                    &&& final(self).last_compression_savings@ == last_five(
                        old(self).last_compression_savings@.push((saved as usize, before as usize)),
                    )
                }
            }),
            results_paired(models::messages(list@)) ==> results_paired(models::messages(r.0@)),
            calls_paired(models::messages(list@)) ==> calls_paired(models::messages(r.0@)),
    {
        let n: usize = list.len();
        if n <= self.protect_first_n + self.protect_last_n {
            let out: Vec<Message> = models::copy_messages(list, 0, n);
            proof {
                assert(models::messages(list@).subrange(0, n as int) =~= models::messages(list@));
            }
            return (out, None);
        }
        let ghost ms = models::messages(list@);
        let all: Vec<Message> = self.phase1_prune_tool_results(list);
        let (head, middle, tail) = self.phase2_3_split(&all);
        let summary: String = Self::summarize(&middle);
        let mut mark: String = "[Compressed summary of ".to_owned();
        mark.append(number::show_size(middle.len()).as_str());
        mark.append(" messages]:\n");
        mark.append(summary.as_str());
        let mut out: Vec<Message> = head;
        let ghost first = models::messages(out@);
        out.push(Message::assistant(mark.as_str()));
        proof {
            assert(models::messages(out@) =~= first.push(out@.last()@));
        }
        let ghost base = out@;
        let mut rest: Vec<Message> = tail;
        let ghost last = rest@;
        out.append(&mut rest);
        proof {
            assert(models::messages(out@) =~= models::messages(base) + models::messages(last));
            assert(models::messages(out@) =~= assembled(
                ms,
                self.protect_first_n as int,
                self.protect_last_n as int,
            ));
            law_sanitizing_leaves_no_orphans(models::messages(out@));
            law_summary_stands_for_the_middle(
                ms,
                self.protect_first_n as int,
                self.protect_last_n as int,
            );
        }
        let out: Vec<Message> = self.phase5_sanitize(&out);
        let before: usize = estimate(list);
        let after: usize = estimate(&out);
        let saved: usize = if before > after {
            before - after
        } else {
            0
        };
        self.last_compression_savings.push((saved, before));
        if self.last_compression_savings.len() > 5 {
            self.last_compression_savings.remove(0);
            assert(self.last_compression_savings@ =~= old(self).last_compression_savings@.push(
                (saved, before),
            ).drop_first());
        }
        (out, Some(summary))
    }

    /// Replaces tool results: one that occurred before by a reference to it, a long one by its
    /// beginning.
    pub fn phase1_prune_tool_results(&self, list: &Vec<Message>) -> (r: Vec<Message>)
        requires
            prunable(models::messages(list@)),
        ensures
            models::messages(r@) == pruned(models::messages(list@)),
    {
        let ghost ms = models::messages(list@);
        let mut out: Vec<Message> = Vec::new();
        let mut i: usize = 0;
        while i < list.len()
            invariant
                i <= list@.len(),
                ms == models::messages(list@),
                prunable(ms),
                models::messages(out@) == pruned(ms).take(i as int),
            decreases list@.len() - i,
        {
            let m: &Message = &list[i];
            assert(ms[i as int] == m@);
            let ghost before = out@;
            if is_tool_result(m) {
                let first: usize = find_same(list, i);
                if first < i {
                    let size: usize = bytes::len(models::or_empty(&m.content));
                    let note: String = text::concat5(
                        "[Same result as msg #",
                        number::show_size(first).as_str(),
                        " — ",
                        number::show_size(size).as_str(),
                        " chars]",
                    );
                    out.push(
                        Message::tool(
                            models::or_empty(&m.tool_call_id),
                            models::or_empty(&m.name),
                            note.as_str(),
                        ),
                    );
                } else {
                    let content: String = shorten(m);
                    let mut short: Message = m.clone();
                    short.content = Some(content);
                    out.push(short);
                }
            } else {
                out.push(m.clone());
            }
            proof {
                assert(out@.last()@ == pruned_at(ms, i as int));
                assert(models::messages(out@) =~= models::messages(before).push(out@.last()@));
                assert(pruned(ms).take(i + 1) =~= pruned(ms).take(i as int).push(
                    pruned_at(ms, i as int),
                ));
            }
            i = i + 1;
        }
        assert(pruned(ms).take(i as int) =~= pruned(ms));
        out
    }

    /// Splits a conversation into its first messages, its last messages, and those between.
    pub fn phase2_3_split(&self, list: &Vec<Message>) -> (r: (
        Vec<Message>,
        Vec<Message>,
        Vec<Message>,
    ))
        ensures
            ({
                let ms = models::messages(list@);
                let head_end = if self.protect_first_n <= ms.len() {
                    self.protect_first_n as int
                } else {
                    ms.len() as int
                };
                let tail_start = if self.protect_last_n <= ms.len() {
                    ms.len() - self.protect_last_n
                } else {
                    0
                };
                &&& models::messages(r.0@) == ms.take(head_end)
                &&& models::messages(r.1@) == if tail_start > head_end {
                    ms.subrange(head_end, tail_start)
                } else {
                    Seq::empty()
                }
                &&& models::messages(r.2@) == ms.skip(tail_start)
            }),
    {
        let total: usize = list.len();
        let head_end: usize = if self.protect_first_n <= total {
            self.protect_first_n
        } else {
            total
        };
        let tail_start: usize = if self.protect_last_n <= total {
            total - self.protect_last_n
        } else {
            0
        };
        let head: Vec<Message> = models::copy_messages(list, 0, head_end);
        let tail: Vec<Message> = models::copy_messages(list, tail_start, total);
        let middle: Vec<Message> = if tail_start > head_end {
            models::copy_messages(list, head_end, tail_start)
        } else {
            let none: Vec<Message> = Vec::new();
            assert(models::messages(none@) =~= Seq::empty());
            none
        };
        (head, middle, tail)
    }

    /// Takes out tool results without their call, and tool calls without their result.
    pub fn phase5_sanitize(&self, list: &Vec<Message>) -> (r: Vec<Message>)
        ensures
            models::messages(r@) == sanitized(models::messages(list@)),
    {
        let ghost ms = models::messages(list@);
        let mut out: Vec<Message> = Vec::new();
        let mut i: usize = 0;
        assert(models::messages(out@) =~= Seq::<MessageView>::empty());
        while i < list.len()
            invariant
                i <= list@.len(),
                ms == models::messages(list@),
                models::messages(out@) == repaired_until(ms, i as int),
            decreases list@.len() - i,
        {
            let ghost before = models::messages(out@);
            match repair(list, i) {
                Some(m) => {
                    out.push(m);
                    assert(models::messages(out@) =~= before.push(m@));
                },
                None => {},
            }
            i = i + 1;
        }
        out
    }

    /// The summary of the messages between; none where there are none.
    pub fn phase4_summarize(&self, middle: &Vec<Message>) -> (r: Option<String>)
        ensures
            models::opt_text(r) == if middle@.len() == 0 {
                None
            } else {
                Some(summary_text(models::messages(middle@)))
            },
    {
        if middle.len() == 0 {
            None
        } else {
            Some(Self::summarize(middle))
        }
    }

    fn summarize(middle: &Vec<Message>) -> (r: String)
        ensures
            r@ == summary_text(models::messages(middle@)),
    {
        let ghost ms = models::messages(middle@);
        let mut task: String = String::new();
        let mut done: Vec<String> = Vec::new();
        let mut decided: Vec<String> = Vec::new();
        let mut i: usize = 0;
        assert(ms.take(0) =~= Seq::<MessageView>::empty());
        assert(text::texts(done@) =~= Seq::<Seq<char>>::empty());
        assert(text::texts(decided@) =~= Seq::<Seq<char>>::empty());
        while i < middle.len()
            invariant
                i <= middle@.len(),
                ms == models::messages(middle@),
                task@ == active_task(ms.take(i as int)),
                text::texts(done@) == actions(ms.take(i as int)),
                text::texts(decided@) == decisions(ms.take(i as int)),
            decreases middle@.len() - i,
        {
            let m: &Message = &middle[i];
            let ghost before = done@;
            let ghost before_decided = decided@;
            proof {
                assert(ms.take(i + 1).drop_last() =~= ms.take(i as int));
                assert(ms.take(i + 1).last() == m@);
            }
            if m.role == MessageRole::User && task.as_str().unicode_len() == 0 {
                task = truncate(models::or_empty(&m.content), 100);
            }
            match action_of(m) {
                Some(a) => {
                    done.push(a);
                    assert(text::texts(done@) =~= text::texts(before).push(a@));
                },
                None => {},
            }
            match decision_of(m) {
                Some(d) => {
                    decided.push(d);
                    assert(text::texts(decided@) =~= text::texts(before_decided).push(d@));
                },
                None => {},
            }
            i = i + 1;
        }
        assert(ms.take(i as int) =~= ms);
        let mut lines: Vec<String> = Vec::new();
        lines.push("## Conversation Summary".to_owned());
        let ghost head = text::texts(lines@);
        assert(head =~= seq!["## Conversation Summary"@]);
        if task.as_str().unicode_len() > 0 {
            lines.push(text::concat2("**Active Task:** ", task.as_str()));
        }
        let ghost with_task = text::texts(lines@);
        assert(with_task =~= if active_task(ms).len() > 0 {
            head.push("**Active Task:** "@ + active_task(ms))
        } else {
            head
        });
        if done.len() > 0 {
            lines.push(text::concat2("**Actions:** ", text::join(&done, "; ").as_str()));
        }
        let ghost with_actions = text::texts(lines@);
        assert(with_actions =~= if actions(ms).len() > 0 {
            with_task.push("**Actions:** "@ + text::joined(actions(ms), "; "@))
        } else {
            with_task
        });
        if decided.len() > 0 {
            lines.push(text::concat2("**Key Decisions:** ", text::join(&decided, "; ").as_str()));
        }
        assert(text::texts(lines@) =~= summary_lines(ms));
        text::join(&lines, "\n")
    }

    /// The estimated number of tokens of a conversation.
    pub fn estimate_tokens(list: &Vec<Message>) -> (r: usize)
        ensures
            r == bounded_estimate(models::messages(list@)),
    {
        estimate(list)
    }
}

// ---------------------------------------------------------------------------
// Laws
// ---------------------------------------------------------------------------

/// Pruning keeps the number of messages, who each comes from, and which tool call each answers;
/// what is no tool result stays as it is.
pub proof fn law_pruning_keeps_order(ms: Seq<MessageView>, i: int)
    requires
        0 <= i < ms.len(),
    ensures
        pruned(ms).len() == ms.len(),
        pruned(ms)[i].role == ms[i].role,
        ms[i].tool_call_id is Some ==> pruned(ms)[i].tool_call_id == ms[i].tool_call_id,
        !is_result(ms[i]) ==> pruned(ms)[i] == ms[i],
{
}

proof fn lemma_first_same(ms: Seq<MessageView>, i: int, from: int)
    requires
        0 <= from <= i < ms.len(),
        is_result(ms[i]),
    ensures
        from <= first_same(ms, i, from) <= i,
        is_result(ms[first_same(ms, i, from)]),
        result_key(ms[first_same(ms, i, from)]) == result_key(ms[i]),
        forall|j: int| #![trigger ms[j]]
            from <= j < first_same(ms, i, from) ==> !(is_result(ms[j]) && result_key(ms[j])
                == result_key(ms[i])),
    decreases i - from,
{
    if from < i && !(is_result(ms[from]) && result_key(ms[from]) == result_key(ms[i])) {
        lemma_first_same(ms, i, from + 1);
    }
}

proof fn lemma_no_earlier(ms: Seq<MessageView>, i: int, from: int)
    requires
        0 <= from <= i < ms.len(),
        forall|j: int| #![trigger ms[j]]
            from <= j < i ==> !(is_result(ms[j]) && result_key(ms[j]) == result_key(ms[i])),
    ensures
        first_same(ms, i, from) == i,
    decreases i - from,
{
    if from < i {
        lemma_no_earlier(ms, i, from + 1);
    }
}

/// A tool result that is replaced by a reference refers to an earlier result of the same tool
/// with the same content, and that one is kept.
pub proof fn law_references_lead_to_kept_results(ms: Seq<MessageView>, i: int)
    requires
        0 <= i < ms.len(),
        is_result(ms[i]),
        first_same(ms, i, 0) < i,
    ensures
        ({
            let first = first_same(ms, i, 0);
            &&& 0 <= first
            &&& is_result(ms[first])
            &&& result_key(ms[first]) == result_key(ms[i])
            &&& pruned(ms)[first] == (MessageView {
                content: Some(shortened(ms[first])),
                ..ms[first]
            })
        }),
{
    lemma_first_same(ms, i, 0);
    let first = first_same(ms, i, 0);
    assert forall|j: int| #![trigger ms[j]] 0 <= j < first implies !(is_result(ms[j]) && result_key(
        ms[j],
    ) == result_key(ms[first])) by {}
    lemma_no_earlier(ms, first, 0);
}

/// After the repair every tool result has its call before it, and every tool call has its result
/// behind it, unless the conversation ends with results to which more may come.
pub proof fn law_sanitizing_leaves_no_orphans(ms: Seq<MessageView>)
    ensures
        results_paired(sanitized(ms)),
        calls_paired(sanitized(ms)),
{
    let out = sanitized(ms);
    let n = ms.len() as int;
    assert forall|p: int| 0 <= p < out.len() implies #[trigger] has_its_call(out, p) by {
        if out[p].role == MessageRole::Tool {
            let i = lemma_origin(ms, n, p);
            lemma_repaired(ms, i);
            let id = ms[i].tool_call_id->0;
            let j = choose|j: int| 0 <= j < i && makes_call(#[trigger] ms[j], id);
            assert(answers_call(ms[i], id));
            assert(settled(ms, j, id));
            lemma_repaired(ms, j);
            lemma_place(ms, i, j);
            lemma_place(ms, n, j);
            assert(makes_call(out[place(ms, j)], id));
        }
    }
    assert forall|p: int| 0 <= p < out.len() implies #[trigger] has_its_results(out, p) by {
        let i = lemma_origin(ms, n, p);
        lemma_repaired(ms, i);
        assert forall|k: int| 0 <= k < calls_of(out[p]).len() implies settled(
            out,
            p,
            (#[trigger] calls_of(out[p])[k]).id,
        ) by {
            let id = calls_of(out[p])[k].id;
            assert(makes_call(out[p], id));
            if answered_after(ms, i, id) {
                let l = choose|l: int| i < l < ms.len() && answers_call(#[trigger] ms[l], id);
                assert(called_before(ms, l, id));
                assert(calls_of(ms[l]).len() == 0);
                assert(has_its_results(ms, l));
                lemma_repaired(ms, l);
                lemma_place(ms, l, i);
                lemma_place(ms, n, l);
                assert(answers_call(out[place(ms, l)], id));
            } else {
                assert forall|q: int| p < q < out.len() implies (#[trigger] out[q]).role
                    == MessageRole::Tool by {
                    let l = lemma_origin(ms, n, q);
                    if l < i {
                        lemma_place(ms, i, l);
                    }
                    lemma_repaired(ms, l);
                    assert(ms[l].role == MessageRole::Tool);
                }
            }
        }
    }
}

/// The repair leaves what has lost nothing as it is, and in order: a result with its call, a
/// message whose calls have their results, and a message without any.
pub proof fn law_sanitizing_keeps_the_rest(ms: Seq<MessageView>, i: int, j: int)
    requires
        0 <= i < j <= ms.len(),
        has_its_call(ms, i),
        has_its_results(ms, i),
    ensures
        0 <= place(ms, i) < sanitized(ms).len(),
        sanitized(ms)[place(ms, i)] == ms[i],
        place(ms, i) < place(ms, j),
        place(ms, i) <= i,
{
    lemma_repaired(ms, i);
    lemma_place(ms, ms.len() as int, i);
    lemma_place(ms, j, i);
    lemma_place_bound(ms, i);
}

proof fn lemma_place_bound(ms: Seq<MessageView>, n: int)
    requires
        0 <= n,
    ensures
        0 <= place(ms, n) <= n,
    decreases n,
{
    if n > 0 {
        lemma_place_bound(ms, n - 1);
    }
}

/// The repair changes nothing where every result has its call and every call its result.
pub proof fn law_sound_conversation_stays(ms: Seq<MessageView>)
    requires
        results_paired(ms),
        calls_paired(ms),
    ensures
        sanitized(ms) == ms,
{
    lemma_sound_until(ms, ms.len() as int);
    assert(ms.take(ms.len() as int) =~= ms);
}

proof fn lemma_sound_until(ms: Seq<MessageView>, n: int)
    requires
        0 <= n <= ms.len(),
        results_paired(ms),
        calls_paired(ms),
    ensures
        repaired_until(ms, n) == ms.take(n),
    decreases n,
{
    if n > 0 {
        lemma_sound_until(ms, n - 1);
        assert(has_its_call(ms, n - 1));
        assert(has_its_results(ms, n - 1));
        lemma_repaired(ms, n - 1);
        assert(ms.take(n) =~= ms.take(n - 1).push(ms[n - 1]));
    } else {
        assert(ms.take(0) =~= Seq::<MessageView>::empty());
    }
}

/// Compression keeps the protected messages at both ends, in order and with one message between
/// them, but for calls and results that have lost each other; it never makes a conversation
/// longer.
pub proof fn law_compression_keeps_both_ends(ms: Seq<MessageView>, first: int, last: int)
    requires
        0 <= first,
        0 <= last,
        ms.len() > first + last,
    ensures
        ({
            let whole = assembled(ms, first, last);
            let out = compressed(ms, first, last);
            &&& whole.take(first) == pruned(ms).take(first)
            &&& whole.skip(first + 1) == pruned(ms).skip(ms.len() - last)
            &&& whole.len() == first + 1 + last
            &&& forall|i: int|
                0 <= i < whole.len() && has_its_call(whole, i) && #[trigger] has_its_results(
                    whole,
                    i,
                ) ==> 0 <= place(whole, i) < out.len() && out[place(whole, i)] == whole[i]
            &&& 0 <= place(whole, first) < out.len()
            &&& out[place(whole, first)] == whole[first]
            &&& whole[first].role == MessageRole::Assistant
            &&& out.len() <= whole.len() <= ms.len()
        }),
{
    let whole = assembled(ms, first, last);
    assert(whole.take(first) =~= pruned(ms).take(first));
    assert(whole.skip(first + 1) =~= pruned(ms).skip(ms.len() - last));
    assert forall|i: int|
        0 <= i < whole.len() && has_its_call(whole, i) && #[trigger] has_its_results(
            whole,
            i,
        ) implies 0 <= place(whole, i) < compressed(ms, first, last).len() && compressed(
        ms,
        first,
        last,
    )[place(whole, i)] == whole[i] by {
        law_sanitizing_keeps_the_rest(whole, i, i + 1);
    }
    assert(calls_of(whole[first]).len() == 0);
    assert(has_its_results(whole, first));
    assert(has_its_call(whole, first));
    lemma_place_bound(whole, whole.len() as int);
}

/// The summary stands in the compressed conversation: the message in the place of the middle ends
/// with the whole summary of it, and says how many messages it stands for.
pub proof fn law_summary_stands_for_the_middle(ms: Seq<MessageView>, first: int, last: int)
    requires
        0 <= first,
        0 <= last,
        ms.len() > first + last,
    ensures
        ({
            let out = compressed(ms, first, last);
            let p = place(assembled(ms, first, last), first);
            let middle = pruned(ms).subrange(first, ms.len() - last);
            &&& 0 <= p < out.len()
            &&& out[p].role == MessageRole::Assistant
            &&& out[p].content is Some
            &&& text::finishes(out[p].content->0, summary_text(middle))
            &&& text::stands_before(
                out[p].content->0,
                number::decimal((ms.len() - last - first) as nat),
                summary_text(middle),
            )
            &&& calls_of(out[p]).len() == 0
        }),
{
    law_compression_keeps_both_ends(ms, first, last);
    let whole = assembled(ms, first, last);
    let middle = pruned(ms).subrange(first, ms.len() - last);
    let n = number::decimal(middle.len());
    let a = "[Compressed summary of "@;
    let b = " messages]:\n"@;
    let none = Seq::<char>::empty();
    let text = a + n + b + summary_text(middle);
    assert(whole[first].content == Some(text));
    text::law_parts_are_in_the_whole(a + n, b, summary_text(middle));
    assert(text =~= a + n + b + summary_text(middle) + none);
}

/// Nothing of a text that is short enough is cut off; of a longer one the beginning stays, and a
/// mark tells that there was more.
pub proof fn law_cut_texts_keep_their_beginning(s: Seq<char>, max: int)
    requires
        0 <= max,
    ensures
        s.len() <= max ==> truncated(s, max) == s,
        s.len() > max ==> truncated(s, max).take(max) == s.take(max),
        s.len() > max ==> text::finishes(truncated(s, max), "..."@),
        s.len() > 0 && max > 0 ==> truncated(s, max).len() > 0,
{
    if s.len() > max {
        assert(truncated(s, max).take(max) =~= s.take(max));
        text::law_parts_are_in_the_whole(s.take(max), "..."@, Seq::empty());
        assert(s.take(max) + "..."@ + Seq::<char>::empty() =~= truncated(s, max));
        assert("..."@ + Seq::<char>::empty() =~= "..."@);
    }
}

/// Actions and decisions are listed in the order of the messages: those of two parts of a
/// conversation are those of the first and then those of the second.
pub proof fn law_lists_keep_the_order(a: Seq<MessageView>, b: Seq<MessageView>, m: MessageView)
    ensures
        actions(a + b) == actions(a) + actions(b),
        decisions(a + b) == decisions(a) + decisions(b),
        actions(seq![m]) == match action(m) {
            Some(t) => seq![t],
            None => Seq::empty(),
        },
        decisions(seq![m]) == match decision(m) {
            Some(t) => seq![t],
            None => Seq::empty(),
        },
    decreases b.len(),
{
    reveal_with_fuel(actions, 2);
    reveal_with_fuel(decisions, 2);
    let none = Seq::<MessageView>::empty();
    assert(seq![m].drop_last() =~= none);
    assert(actions(none) =~= Seq::<Seq<char>>::empty());
    assert(decisions(none) =~= Seq::<Seq<char>>::empty());
    match action(m) {
        Some(t) => assert(actions(seq![m]) =~= seq![t]),
        None => {},
    }
    match decision(m) {
        Some(t) => assert(decisions(seq![m]) =~= seq![t]),
        None => {},
    }
    if b.len() == 0 {
        assert(a + b =~= a);
        assert(actions(a) + actions(b) =~= actions(a));
        assert(decisions(a) + decisions(b) =~= decisions(a));
    } else {
        law_lists_keep_the_order(a, b.drop_last(), m);
        assert((a + b).drop_last() =~= a + b.drop_last());
        assert(actions(a + b) =~= actions(a) + actions(b));
        assert(decisions(a + b) =~= decisions(a) + decisions(b));
    }
}

proof fn lemma_list_holds(ms: Seq<MessageView>, i: int)
    requires
        0 <= i < ms.len(),
    ensures
        action(ms[i]) is Some ==> exists|k: int|
            0 <= k < actions(ms).len() && #[trigger] actions(ms)[k] == action(ms[i])->0,
        decision(ms[i]) is Some ==> exists|k: int|
            0 <= k < decisions(ms).len() && #[trigger] decisions(ms)[k] == decision(ms[i])->0,
{
    let a = ms.take(i);
    let m = ms[i];
    let b = ms.skip(i + 1);
    assert(ms =~= a + seq![m] + b);
    law_lists_keep_the_order(a + seq![m], b, m);
    law_lists_keep_the_order(a, seq![m], m);
    if action(m) is Some {
        assert(actions(ms)[actions(a).len() as int] == action(m)->0);
    }
    if decision(m) is Some {
        assert(decisions(ms)[decisions(a).len() as int] == decision(m)->0);
    }
}

proof fn lemma_in_summary(ms: Seq<MessageView>, line: Seq<char>, k: int)
    requires
        0 <= k < summary_lines(ms).len(),
        text::includes(summary_lines(ms)[k], line),
    ensures
        text::includes(summary_text(ms), line),
{
    text::law_joined_holds_every_part(summary_lines(ms), "\n"@, k);
    text::law_includes_is_transitive(summary_text(ms), summary_lines(ms)[k], line);
}

/// The summary tells of every message of the middle: of what the user asked, of what the agent
/// answered and decided, and of every tool that was run.
pub proof fn law_summary_tells_of_every_message(ms: Seq<MessageView>, i: int)
    requires
        0 <= i < ms.len(),
    ensures
        ({
            let s = summary_text(ms);
            let content = models::text_or_empty(ms[i].content);
            &&& ms[i].role == MessageRole::User && content.len() > 0 ==> text::includes(
                s,
                "User asked: "@ + truncated(content, 80),
            )
            &&& ms[i].role == MessageRole::Assistant && content.len() > 0 ==> text::includes(
                s,
                "Agent responded: "@ + truncated(content, 80),
            )
            &&& ms[i].role == MessageRole::Tool && ms[i].name is Some ==> text::includes(
                s,
                "Ran tool "@ + ms[i].name->0 + ": "@ + truncated(content, 50),
            )
            &&& ms[i].role == MessageRole::Assistant && (text::includes(
                unicode::lowercase(content),
                "decided"@,
            ) || text::includes(unicode::lowercase(content), "chosen"@) || text::includes(
                unicode::lowercase(content),
                "will use"@,
            )) ==> text::stands_before(s, "**Key Decisions:** "@, truncated(content, 80))
        }),
{
    lemma_list_holds(ms, i);
    let lines = summary_lines(ms);
    let none = Seq::<char>::empty();
    if action(ms[i]) is Some {
        let k = choose|k: int|
            0 <= k < actions(ms).len() && #[trigger] actions(ms)[k] == action(ms[i])->0;
        let list = text::joined(actions(ms), "; "@);
        text::law_joined_holds_every_part(actions(ms), "; "@, k);
        text::lemma_includes_within("**Actions:** "@, list, none, actions(ms)[k]);
        assert("**Actions:** "@ + list + none =~= "**Actions:** "@ + list);
        let at = if active_task(ms).len() > 0 {
            2int
        } else {
            1
        };
        assert(lines[at] == "**Actions:** "@ + list);
        lemma_in_summary(ms, actions(ms)[k], at);
    }
    if decision(ms[i]) is Some {
        let k = choose|k: int|
            0 <= k < decisions(ms).len() && #[trigger] decisions(ms)[k] == decision(ms[i])->0;
        let d = decisions(ms)[k];
        let list = text::joined(decisions(ms), "; "@);
        text::law_joined_holds_every_part(decisions(ms), "; "@, k);
        let x = choose|x: int| text::occurs_at(list, d, x);
        let title = "**Key Decisions:** "@;
        let line = title + list;
        assert(line =~= none + title + list.take(x) + d + list.skip(x + d.len())) by {
            assert(list =~= list.take(x) + list.subrange(x, x + d.len()) + list.skip(x + d.len()));
        }
        assert(text::stands_before(line, title, d));
        let at = lines.len() - 1;
        assert(lines[at] == line);
        text::law_joined_holds_every_part(lines, "\n"@, at);
        text::lemma_stands_before_through(summary_text(ms), line, title, d);
    }
}

/// The summary names the task at hand: the first thing in the middle that the user asked for.
pub proof fn law_summary_names_the_task(ms: Seq<MessageView>, i: int)
    requires
        0 <= i < ms.len(),
        ms[i].role == MessageRole::User,
        models::text_or_empty(ms[i].content).len() > 0,
        forall|j: int|
            0 <= j < i && (#[trigger] ms[j]).role == MessageRole::User ==> models::text_or_empty(
                ms[j].content,
            ).len() == 0,
    ensures
        text::includes(
            summary_text(ms),
            "**Active Task:** "@ + truncated(models::text_or_empty(ms[i].content), 100),
        ),
{
    lemma_active_task(ms, i);
    let task = truncated(content_of(ms[i]), 100);
    law_cut_texts_keep_their_beginning(content_of(ms[i]), 100);
    let line = "**Active Task:** "@ + task;
    assert(summary_lines(ms)[1] == line);
    text::law_joined_holds_every_part(summary_lines(ms), "\n"@, 1);
}

proof fn lemma_active_task(ms: Seq<MessageView>, i: int)
    requires
        0 <= i < ms.len(),
        ms[i].role == MessageRole::User,
        content_of(ms[i]).len() > 0,
        forall|j: int|
            0 <= j < i && (#[trigger] ms[j]).role == MessageRole::User ==> content_of(ms[j]).len()
                == 0,
    ensures
        active_task(ms) == truncated(content_of(ms[i]), 100),
    decreases ms.len(),
{
    let front = ms.drop_last();
    law_cut_texts_keep_their_beginning(content_of(ms[i]), 100);
    if i < front.len() {
        assert(front[i] == ms[i]);
        assert forall|j: int| 0 <= j < i && (#[trigger] front[j]).role
            == MessageRole::User implies content_of(front[j]).len() == 0 by {
            assert(front[j] == ms[j]);
        }
        lemma_active_task(front, i);
    } else {
        assert forall|j: int| 0 <= j < front.len() && (#[trigger] front[j]).role
            == MessageRole::User implies content_of(front[j]).len() == 0 by {
            assert(front[j] == ms[j]);
        }
        lemma_no_task(front);
    }
}

proof fn lemma_no_task(ms: Seq<MessageView>)
    requires
        forall|j: int|
            0 <= j < ms.len() && (#[trigger] ms[j]).role == MessageRole::User ==> content_of(
                ms[j],
            ).len() == 0,
    ensures
        active_task(ms).len() == 0,
    decreases ms.len(),
{
    if ms.len() > 0 {
        let front = ms.drop_last();
        assert forall|j: int| 0 <= j < front.len() && (#[trigger] front[j]).role
            == MessageRole::User implies content_of(front[j]).len() == 0 by {
            assert(front[j] == ms[j]);
        }
        lemma_no_task(front);
        assert(ms[ms.len() - 1] == ms.last());
    }
}

/// A tool result that did not occur before keeps whose result it is. A short one stays as it is;
/// a long one keeps its first 200 bytes.
pub proof fn law_new_results_are_kept(ms: Seq<MessageView>, i: int)
    requires
        0 <= i < ms.len(),
        ms[i].role == MessageRole::Tool,
        ms[i].content is Some,
        forall|j: int|
            0 <= j < i ==> !((#[trigger] ms[j]).role == MessageRole::Tool && ms[j].content
                == ms[i].content && models::text_or_empty(ms[j].name) == models::text_or_empty(
                ms[i].name,
            )),
    ensures
        pruned(ms)[i].tool_call_id == ms[i].tool_call_id,
        pruned(ms)[i].name == ms[i].name,
        bytes::byte_len(ms[i].content->0) <= 500 ==> pruned(ms)[i] == ms[i],
        bytes::byte_len(ms[i].content->0) > 500 ==> pruned(ms)[i].content is Some && text::includes(
            pruned(ms)[i].content->0,
            bytes::byte_prefix(ms[i].content->0, 200),
        ),
{
    assert forall|j: int| #![trigger ms[j]] 0 <= j < i implies !(is_result(ms[j]) && result_key(
        ms[j],
    ) == result_key(ms[i])) by {}
    lemma_no_earlier(ms, i, 0);
    if bytes::byte_len(ms[i].content->0) > 500 {
        lemma_shortened(ms[i]);
    }
}

proof fn lemma_shortened(m: MessageView)
    requires
        bytes::byte_len(content_of(m)) > 500,
    ensures
        text::includes(shortened(m), bytes::byte_prefix(content_of(m), 200)),
{
    let content = content_of(m);
    let lines = number::decimal(text::line_seq(content).len());
    let tool = match m.name {
        Some(n) => n,
        None => "tool"@,
    };
    let head = "["@ + tool + " output, "@ + lines + " lines]\n"@;
    let cut = bytes::byte_prefix(content, 200);
    lemma_cut_within(head, cut, "\n... ("@, lines, " lines total, truncated)"@);
}

proof fn lemma_cut_within(
    a: Seq<char>,
    b: Seq<char>,
    c: Seq<char>,
    d: Seq<char>,
    e: Seq<char>,
)
    ensures
        text::includes(a + b + c + d + e, b),
{
    let n = a.len() as int;
    assert((a + b + c + d + e).subrange(n, n + b.len()) =~= b);
    assert(text::occurs_at(a + b + c + d + e, b, n));
}

proof fn lemma_note_begins(
    a: Seq<char>,
    b: Seq<char>,
    c: Seq<char>,
    d: Seq<char>,
    e: Seq<char>,
)
    ensures
        text::begins(a + b + c + d + e, a + b),
{
    assert((a + b + c + d + e).subrange(0, (a + b).len() as int) =~= a + b);
}

/// A tool result that occurred before refers to where it first did, and keeps whose result it is.
pub proof fn law_repeated_results_refer_back(ms: Seq<MessageView>, i: int, j: int)
    requires
        0 <= j < i < ms.len(),
        ms[i].role == MessageRole::Tool,
        ms[i].content is Some,
        ms[j].role == MessageRole::Tool,
        ms[j].content == ms[i].content,
        models::text_or_empty(ms[j].name) == models::text_or_empty(ms[i].name),
        forall|k: int|
            0 <= k < j ==> !((#[trigger] ms[k]).role == MessageRole::Tool && ms[k].content
                == ms[i].content && models::text_or_empty(ms[k].name) == models::text_or_empty(
                ms[i].name,
            )),
    ensures
        pruned(ms)[i].role == MessageRole::Tool,
        pruned(ms)[i].tool_call_id == Some(models::text_or_empty(ms[i].tool_call_id)),
        pruned(ms)[i].name == Some(models::text_or_empty(ms[i].name)),
        pruned(ms)[i].content is Some && text::begins(
            pruned(ms)[i].content->0,
            "[Same result as msg #"@ + number::decimal(j as nat),
        ),
{
    lemma_first_same(ms, i, 0);
    assert(is_result(ms[j]) && result_key(ms[j]) == result_key(ms[i]));
    let f = first_same(ms, i, 0);
    assert(f == j) by {
        if f < j {
            assert(is_result(ms[f]) && result_key(ms[f]) == result_key(ms[i]));
        }
    }
    lemma_note_begins(
        "[Same result as msg #"@,
        number::decimal(j as nat),
        " — "@,
        number::decimal(bytes::byte_len(content_of(ms[i]))),
        " chars]"@,
    );
}

/// The estimate of a conversation is the sum of those of its parts, and a message counts a quarter
/// of its characters.
pub proof fn law_estimates_add_up(a: Seq<MessageView>, b: Seq<MessageView>, m: MessageView)
    ensures
        token_estimate(a + b) == token_estimate(a) + token_estimate(b),
        token_estimate(seq![m]) == models::text_or_empty(m.content).len() / 4,
    decreases b.len(),
{
    reveal_with_fuel(token_estimate, 2);
    assert(seq![m].drop_last() =~= Seq::<MessageView>::empty());
    if b.len() == 0 {
        assert(a + b =~= a);
    } else {
        law_estimates_add_up(a, b.drop_last(), m);
        assert((a + b).drop_last() =~= a + b.drop_last());
    }
}

/// The repair takes out no more than has to go: a call with its result stays where its message is,
/// and a message keeps who it comes from, its content and its reasoning.
pub proof fn law_sanitizing_keeps_settled_calls(ms: Seq<MessageView>, i: int, id: Seq<char>)
    requires
        0 <= i < ms.len(),
        has_its_call(ms, i),
        makes_call(ms[i], id) && settled(ms, i, id) || models::text_or_empty(ms[i].content).len()
            > 0 || calls_of(ms[i]).len() == 0,
    ensures
        ({
            let out = sanitized(ms);
            let p = place(ms, i);
            &&& 0 <= p < out.len()
            &&& out[p].role == ms[i].role
            &&& out[p].content == ms[i].content
            &&& out[p].reasoning == ms[i].reasoning
            &&& out[p].tool_call_id == ms[i].tool_call_id
            &&& makes_call(ms[i], id) && settled(ms, i, id) ==> makes_call(out[p], id)
        }),
{
    lemma_repaired(ms, i);
    lemma_settled_calls(ms, i, calls_of(ms[i]));
    lemma_place(ms, ms.len() as int, i);
    lemma_place_bound(ms, i);
}

/// Only the last savings are remembered, at most five of them, and in order; the newest is always
/// among them.
pub proof fn law_newest_savings_are_remembered(
    savings: Seq<(usize, usize)>,
    newest: (usize, usize),
)
    requires
        savings.len() <= 5,
    ensures
        ({
            let kept = last_five(savings.push(newest));
            &&& kept.last() == newest
            &&& kept.len() <= 5
            &&& savings.len() < 5 ==> kept == savings.push(newest)
            &&& savings.len() == 5 ==> kept.drop_last() == savings.drop_first()
        }),
{
    let all = savings.push(newest);
    if savings.len() == 5 {
        assert(last_five(all).drop_last() =~= savings.drop_first());
    }
}

/// Compression pauses exactly when the two last times saved less than a tenth each; one that saved
/// a tenth or more lets it go on.
pub proof fn law_little_savings_pause_compression(
    savings: Seq<(usize, usize)>,
    a: (usize, usize),
    b: (usize, usize),
)
    requires
        a.1 > 0,
        b.1 > 0,
    ensures
        thrashing(savings.push(a).push(b)) <==> 10 * a.0 < a.1 && 10 * b.0 < b.1,
        !thrashing(Seq::empty()),
        !thrashing(seq![a]),
{
    let all = savings.push(a).push(b);
    assert(all[all.len() - 1] == b && all[all.len() - 2] == a);
}

} // verus!
