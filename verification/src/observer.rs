//! Events in the life of the agent, and the records that are logged of them.

use crate::bytes;
use crate::json;
use crate::json::Json;
use crate::number;
use crate::text;
use vstd::prelude::*;

verus! {

/// Something that happened. Times are in milliseconds.
#[derive(Debug, Clone)]
pub enum Event {
    SessionStart { session_id: String },
    SessionEnd { session_id: String },
    TurnStart { turn_number: usize, user_message_preview: String },
    LlmRequest { model: String, messages_count: usize, tools_count: usize },
    LlmResponse { model: String, prompt_tokens: i32, completion_tokens: i32, latency_ms: u64 },
    ToolCall { name: String, args: Json },
    ToolResult { name: String, success: bool, duration_ms: u64, output_len: usize },
    MemoryWrite { key: String, category: String },
    TurnComplete { turn_number: usize, api_calls: usize, total_tokens: i32 },
}

/// How much a record matters.
#[derive(Debug, Clone, Copy, PartialEq, Eq, Structural)]
pub enum LogLevel {
    Debug,
    Info,
}

/// What of a message is logged: all of it, or the whole characters in its first 60 bytes and a
/// mark.
pub open spec fn preview(message: Seq<char>) -> Seq<char> {
    if bytes::byte_len(message) > 60 {
        bytes::byte_prefix(message, bytes::last_cut(message, 60)) + "..."@
    } else {
        message
    }
}

/// How a truth value is written.
pub open spec fn truth(b: bool) -> Seq<char> {
    if b {
        "true"@
    } else {
        "false"@
    }
}

/// The level at which an event is logged.
pub open spec fn level_of(e: Event) -> LogLevel {
    match e {
        Event::LlmRequest { .. } => LogLevel::Debug,
        Event::ToolCall { .. } => LogLevel::Debug,
        Event::MemoryWrite { .. } => LogLevel::Debug,
        _ => LogLevel::Info,
    }
}

/// The text that is logged of an event.
pub open spec fn record_of(e: Event) -> Seq<char> {
    match e {
        Event::SessionStart { session_id } => "[observer] Session start: "@ + session_id@,
        Event::SessionEnd { session_id } => "[observer] Session end: "@ + session_id@,
        Event::TurnStart { turn_number, user_message_preview } => "[observer] Turn "@
            + number::decimal(turn_number as nat) + " start: "@ + preview(user_message_preview@),
        Event::LlmRequest { model, messages_count, tools_count } =>
            "[observer] LLM request → model="@ + model@ + ", messages="@ + number::decimal(
            messages_count as nat,
        ) + ", tools="@ + number::decimal(tools_count as nat),
        Event::LlmResponse { model, prompt_tokens, completion_tokens, latency_ms } =>
            "[observer] LLM response ← model="@ + model@ + ", tokens="@ + number::signed_decimal(
            prompt_tokens as int,
        ) + "+"@ + number::signed_decimal(completion_tokens as int) + " ("@ + number::decimal(
            latency_ms as nat,
        ) + "ms)"@,
        Event::ToolCall { name, args } => "[observer] Tool call: "@ + name@ + " args="@
            + json::rendered(args@),
        Event::ToolResult { name, success, duration_ms, output_len } =>
            "[observer] Tool result: "@ + name@ + " success="@ + truth(success) + " "@
            + number::decimal(duration_ms as nat) + "ms len="@ + number::decimal(
            output_len as nat,
        ),
        Event::MemoryWrite { key, category } => "[observer] Memory write: key='"@ + key@
            + "' category='"@ + category@ + "'"@,
        Event::TurnComplete { turn_number, api_calls, total_tokens } => "[observer] Turn "@
            + number::decimal(turn_number as nat) + " complete: "@ + number::decimal(
            api_calls as nat,
        ) + " API calls, "@ + number::signed_decimal(total_tokens as int) + " total tokens"@,
    }
}

fn shorten(message: &str) -> (r: String)
    ensures
        r@ == preview(message@),
{
    if bytes::len(message) > 60 {
        text::concat2(bytes::prefix_within(message, 60), "...")
    } else {
        message.to_owned()
    }
}

fn record_text(event: &Event) -> (r: String)
    ensures
        r@ == record_of(*event),
{
    match event {
        Event::SessionStart { session_id } => text::concat2(
            "[observer] Session start: ",
            session_id.as_str(),
        ),
        Event::SessionEnd { session_id } => text::concat2(
            "[observer] Session end: ",
            session_id.as_str(),
        ),
        Event::TurnStart { turn_number, user_message_preview } => text::concat4(
            "[observer] Turn ",
            number::show_size(*turn_number).as_str(),
            " start: ",
            shorten(user_message_preview.as_str()).as_str(),
        ),
        Event::LlmRequest { model, messages_count, tools_count } => {
            let mut out: String = text::concat4(
                "[observer] LLM request → model=",
                model.as_str(),
                ", messages=",
                number::show_size(*messages_count).as_str(),
            );
            out.append(", tools=");
            out.append(number::show_size(*tools_count).as_str());
            out
        },
        Event::LlmResponse { model, prompt_tokens, completion_tokens, latency_ms } => {
            let mut out: String = text::concat5(
                "[observer] LLM response ← model=",
                model.as_str(),
                ", tokens=",
                number::show_signed(*prompt_tokens as i64).as_str(),
                "+",
            );
            out.append(number::show_signed(*completion_tokens as i64).as_str());
            out.append(" (");
            out.append(number::show(*latency_ms).as_str());
            out.append("ms)");
            out
        },
        Event::ToolCall { name, args } => text::concat4(
            "[observer] Tool call: ",
            name.as_str(),
            " args=",
            json::render(args).as_str(),
        ),
        Event::ToolResult { name, success, duration_ms, output_len } => {
            let yes: &str = if *success {
                "true"
            } else {
                "false"
            };
            let mut out: String = text::concat5(
                "[observer] Tool result: ",
                name.as_str(),
                " success=",
                yes,
                " ",
            );
            out.append(number::show(*duration_ms).as_str());
            out.append("ms len=");
            out.append(number::show_size(*output_len).as_str());
            out
        },
        Event::MemoryWrite { key, category } => text::concat5(
            "[observer] Memory write: key='",
            key.as_str(),
            "' category='",
            category.as_str(),
            "'",
        ),
        Event::TurnComplete { turn_number, api_calls, total_tokens } => {
            let mut out: String = text::concat5(
                "[observer] Turn ",
                number::show_size(*turn_number).as_str(),
                " complete: ",
                number::show_size(*api_calls).as_str(),
                " API calls, ",
            );
            out.append(number::show_signed(*total_tokens as i64).as_str());
            out.append(" total tokens");
            out
        },
    }
}

/// An observer that logs every event.
pub struct LogObserver;

impl LogObserver {
    /// The level and the text of what is logged of an event.
    pub fn on_event(&self, event: &Event) -> (r: (LogLevel, String))
        ensures
            r.0 == level_of(*event),
            r.1@ == record_of(*event),
    {
        let level: LogLevel = match event {
            Event::LlmRequest { .. } => LogLevel::Debug,
            Event::ToolCall { .. } => LogLevel::Debug,
            Event::MemoryWrite { .. } => LogLevel::Debug,
            _ => LogLevel::Info,
        };
        (level, record_text(event))
    }
}

// ---------------------------------------------------------------------------
// Laws
// ---------------------------------------------------------------------------

/// What is logged of a session is its identifier, and what is logged of a write to memory its key
/// and its category.
pub proof fn law_records_of_sessions_and_memory(e: Event)
    ensures
        e matches Event::SessionStart { session_id } ==> text::finishes(
            record_of(e),
            session_id@,
        ) && text::begins(record_of(e), "[observer] Session start: "@),
        e matches Event::SessionEnd { session_id } ==> text::finishes(record_of(e), session_id@)
            && text::begins(record_of(e), "[observer] Session end: "@),
        e matches Event::MemoryWrite { key, category } ==> text::stands_before(
            record_of(e),
            key@,
            category@,
        ),
{
    let r = record_of(e);
    let none = Seq::<char>::empty();
    match e {
        Event::SessionStart { session_id } => {
            text::law_parts_are_in_the_whole("[observer] Session start: "@, session_id@, none);
            assert(r =~= "[observer] Session start: "@ + session_id@ + none);
            assert(session_id@ + none =~= session_id@);
        },
        Event::SessionEnd { session_id } => {
            text::law_parts_are_in_the_whole("[observer] Session end: "@, session_id@, none);
            assert(r =~= "[observer] Session end: "@ + session_id@ + none);
            assert(session_id@ + none =~= session_id@);
        },
        Event::MemoryWrite { key, category } => {
            assert(r =~= "[observer] Memory write: key='"@ + key@ + "' category='"@ + category@
                + "'"@);
        },
        _ => {},
    }
}

/// What is logged of a turn is its number and the message, or what it has cost.
pub proof fn law_records_of_turns(e: Event)
    ensures
        e matches Event::TurnStart { turn_number, user_message_preview } ==> {
            &&& text::begins(
                record_of(e),
                "[observer] Turn "@ + number::decimal(turn_number as nat),
            )
            &&& bytes::byte_len(user_message_preview@) <= 60 ==> text::finishes(
                record_of(e),
                user_message_preview@,
            )
        },
        e matches Event::TurnComplete { turn_number, api_calls, total_tokens } ==> {
            &&& text::begins(
                record_of(e),
                "[observer] Turn "@ + number::decimal(turn_number as nat),
            )
            &&& text::stands_before(
                record_of(e),
                number::decimal(api_calls as nat) + " API calls, "@,
                number::signed_decimal(total_tokens as int) + " total tokens"@,
            )
        },
{
    let r = record_of(e);
    match e {
        Event::TurnStart { turn_number, user_message_preview } => {
            let a = "[observer] Turn "@;
            let b = number::decimal(turn_number as nat);
            let m = preview(user_message_preview@);
            text::law_parts_are_in_the_whole(a, b, " start: "@ + m);
            assert(r =~= a + b + (" start: "@ + m));
            text::law_parts_are_in_the_whole(a + b, " start: "@, m);
            assert(r =~= (a + b) + " start: "@ + m);
        },
        Event::TurnComplete { turn_number, api_calls, total_tokens } => {
            let a = "[observer] Turn "@;
            let b = number::decimal(turn_number as nat);
            let calls = number::decimal(api_calls as nat);
            let tokens = number::signed_decimal(total_tokens as int);
            lemma_complete(
                a,
                b,
                " complete: "@,
                calls,
                " API calls, "@,
                tokens,
                " total tokens"@,
            );
        },
        _ => {},
    }
}

proof fn lemma_complete(
    a: Seq<char>,
    b: Seq<char>,
    c: Seq<char>,
    d: Seq<char>,
    e: Seq<char>,
    f: Seq<char>,
    g: Seq<char>,
)
    ensures
        text::begins(a + b + c + d + e + f + g, a + b),
        text::stands_before(a + b + c + d + e + f + g, d + e, f + g),
{
    let none = Seq::<char>::empty();
    let r = a + b + c + d + e + f + g;
    assert(r =~= (a + b + c) + (d + e) + none + (f + g) + none);
    assert(r.subrange(0, (a + b).len() as int) =~= a + b);
}

/// What is logged of a request to the model and of its response is the model and the numbers.
pub proof fn law_records_of_the_model(e: Event)
    ensures
        e matches Event::LlmRequest { model, messages_count, tools_count } ==> {
            &&& text::stands_before(
                record_of(e),
                model@,
                ", messages="@ + number::decimal(messages_count as nat),
            )
            &&& text::finishes(record_of(e), ", tools="@ + number::decimal(tools_count as nat))
        },
        e matches Event::LlmResponse { model, prompt_tokens, completion_tokens, latency_ms } ==> {
            &&& text::stands_before(
                record_of(e),
                model@,
                ", tokens="@ + (number::signed_decimal(prompt_tokens as int) + "+"@
                    + number::signed_decimal(completion_tokens as int)),
            )
            &&& text::finishes(
                record_of(e),
                " ("@ + (number::decimal(latency_ms as nat) + "ms)"@),
            )
        },
{
    match e {
        Event::LlmRequest { model, messages_count, tools_count } => {
            lemma_fields(
                "[observer] LLM request → model="@,
                model@,
                ", messages="@,
                number::decimal(messages_count as nat),
                ", tools="@,
                number::decimal(tools_count as nat),
            );
        },
        Event::LlmResponse { model, prompt_tokens, completion_tokens, latency_ms } => {
            let a = "[observer] LLM response ← model="@;
            let p = number::signed_decimal(prompt_tokens as int);
            let q = number::signed_decimal(completion_tokens as int);
            let ms = number::decimal(latency_ms as nat);
            lemma_fields(a, model@, ", tokens="@, p + "+"@ + q, " ("@, ms + "ms)"@);
            lemma_regroup(a + model@ + ", tokens="@, p, "+"@, q, " ("@, ms, "ms)"@);
        },
        _ => {},
    }
}

proof fn lemma_fields(
    a: Seq<char>,
    b: Seq<char>,
    c: Seq<char>,
    d: Seq<char>,
    e: Seq<char>,
    f: Seq<char>,
)
    ensures
        text::stands_before(a + b + c + d + e + f, b, c + d),
        text::finishes(a + b + c + d + e + f, e + f),
{
    let r = a + b + c + d + e + f;
    assert(r =~= a + b + Seq::<char>::empty() + (c + d) + (e + f));
    assert(r.subrange(r.len() - (e + f).len(), r.len() as int) =~= e + f);
}

proof fn lemma_regroup(
    a: Seq<char>,
    b: Seq<char>,
    c: Seq<char>,
    d: Seq<char>,
    e: Seq<char>,
    f: Seq<char>,
    g: Seq<char>,
)
    ensures
        a + b + c + d + e + f + g == a + (b + c + d) + e + (f + g),
{
    assert(a + b + c + d + e + f + g =~= a + (b + c + d) + e + (f + g));
}

/// What is logged of a call of a tool is its name and its arguments, and of the result whether it
/// was a success, how long it took and how long it is.
pub proof fn law_records_of_tools(e: Event)
    ensures
        e matches Event::ToolCall { name, args } ==> {
            &&& text::includes(record_of(e), name@)
            &&& text::finishes(record_of(e), json::rendered(args@))
        },
        e matches Event::ToolResult { name, success, duration_ms, output_len } ==> {
            &&& text::stands_before(
                record_of(e),
                name@,
                if success {
                    "success="@ + "true"@
                } else {
                    "success="@ + "false"@
                },
            )
            &&& text::includes(record_of(e), number::decimal(duration_ms as nat) + "ms"@)
            &&& text::finishes(record_of(e), "len="@ + number::decimal(output_len as nat))
        },
{
    let r = record_of(e);
    match e {
        Event::ToolCall { name, args } => {
            let a = "[observer] Tool call: "@;
            let z = json::rendered(args@);
            assert(r =~= a + name@ + (" args="@ + z));
            text::law_parts_are_in_the_whole(a, name@, " args="@ + z);
            text::law_parts_are_in_the_whole(a + name@, " args="@, z);
            assert(r =~= (a + name@) + " args="@ + z);
        },
        Event::ToolResult { name, success, duration_ms, output_len } => {
            reveal_strlit(" success=");
            reveal_strlit("success=");
            reveal_strlit("ms len=");
            reveal_strlit("ms");
            reveal_strlit("len=");
            let a = "[observer] Tool result: "@;
            let blank = seq![' '];
            assert(" success="@ =~= blank + "success="@);
            assert("ms len="@ =~= "ms"@ + blank + "len="@);
            let y = "success="@ + truth(success);
            let d = number::decimal(duration_ms as nat) + "ms"@;
            let z = "len="@ + number::decimal(output_len as nat);
            assert(r =~= a + name@ + blank + y + (" "@ + d + blank + z));
            text::law_parts_are_in_the_whole(a + name@ + blank + y + " "@, d, blank + z);
            assert(r =~= (a + name@ + blank + y + " "@) + d + (blank + z));
            text::law_parts_are_in_the_whole(a + name@ + blank + y + " "@ + d, blank, z);
            assert(r =~= (a + name@ + blank + y + " "@ + d) + blank + z);
        },
        _ => {},
    }
}

/// A message is logged whole, or, if it is long, by its beginning, which is all that fits in 60
/// bytes, and a mark.
pub proof fn law_previews_begin_as_the_message(message: Seq<char>, more: Seq<char>, rest: Seq<char>)
    ensures
        bytes::byte_len(message) <= 60 ==> preview(message) == message,
        bytes::byte_len(message) > 60 ==> exists|kept: Seq<char>, left: Seq<char>|
            #![trigger kept + left]
            {
                &&& message == kept + left
                &&& preview(message) == kept + "..."@
                &&& bytes::byte_len(kept) <= 60
                &&& message == more + rest && bytes::byte_len(more) <= 60 ==> more.len()
                    <= kept.len()
            },
{
    if bytes::byte_len(message) > 60 {
        let n = bytes::last_cut(message, 60);
        bytes::lemma_last_cut(message, 60);
        bytes::law_cuts_lose_nothing(message, n);
        let kept = bytes::byte_prefix(message, n);
        let left = bytes::byte_suffix(message, n);
        assert(message == kept + left);
        if message == more + rest && bytes::byte_len(more) <= 60 {
            bytes::law_texts_can_be_parted(more, rest);
            assert(bytes::cuttable(message, bytes::byte_len(more) as int));
            if more.len() > kept.len() {
                let extra = more.skip(kept.len() as int);
                assert(more =~= kept + extra) by {
                    assert forall|i: int| 0 <= i < kept.len() implies more[i] == kept[i] by {
                        assert((more + rest)[i] == (kept + left)[i]);
                    }
                }
                bytes::law_texts_can_be_parted(kept, extra);
                assert(bytes::byte_len(more) <= n);
                assert(bytes::byte_len(extra) == 0);
                assert(extra.len() > 0);
                vstd::utf8::encode_utf8_decode_utf8(extra);
                assert(vstd::utf8::encode_utf8(extra) =~= Seq::<u8>::empty());
            }
        }
    }
}

/// Requests, calls of tools and writes to memory are details; everything else is told at the usual
/// level.
pub proof fn law_details_are_for_debugging(e: Event)
    ensures
        level_of(e) == LogLevel::Debug <==> e is LlmRequest || e is ToolCall || e is MemoryWrite,
        level_of(e) == LogLevel::Info <==> !(e is LlmRequest || e is ToolCall || e is MemoryWrite),
{
}

} // verus!
