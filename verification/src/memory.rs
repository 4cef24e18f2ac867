//! Long-term memory: what providers recall for a turn, what is learned from one, and the
//! summaries of past turns.

use crate::bytes;
use crate::file_memory;
use crate::file_memory::{FileMemoryStore, MemoryTarget};
use crate::number;
use crate::text;
use crate::unicode;
use vstd::prelude::*;

verus! {

// ---------------------------------------------------------------------------
// Providers
// ---------------------------------------------------------------------------

/// Something that keeps memories: it is asked before a turn, and told of it afterwards.
pub trait MemoryProvider {
    fn name(&self) -> &str;

    fn prefetch(&self, query: &str, session_id: &str) -> Result<String, String>;

    fn sync_turn(&self, user: &str, assistant: &str, session_id: &str) -> Result<(), String>;

    fn on_turn_start(&self, turn_number: usize, message: &str);

    fn on_session_end(&self, session_id: &str) -> Result<(), String>;
}

/// The memory files and all providers.
pub struct MemoryManager<P> {
    pub providers: Vec<P>,
    pub file_memory: Option<FileMemoryStore>,
}

/// What the memory files add to the context of a turn.
pub open spec fn file_parts(memory: Seq<char>, user: Seq<char>) -> Seq<Seq<char>> {
    let first = if memory.len() > 0 {
        seq!["## Agent Memory\n"@ + memory]
    } else {
        Seq::empty()
    };
    if user.len() > 0 {
        first.push("## User Profile\n"@ + user)
    } else {
        first
    }
}

/// What the answer of a provider adds to the context of a turn: nothing if it failed, or found
/// nothing but white space.
pub open spec fn with_answer(
    parts: Seq<Seq<char>>,
    name: Seq<char>,
    answer: Result<String, String>,
) -> Seq<Seq<char>> {
    match answer {
        Ok(ctx) => if text::trimmed(ctx@).len() > 0 {
            parts.push("["@ + name + "]\n"@ + ctx@)
        } else {
            parts
        },
        Err(_) => parts,
    }
}

/// The parts of the context after the first `n` answers.
pub open spec fn with_answers(
    parts: Seq<Seq<char>>,
    answers: Seq<(String, Result<String, String>)>,
) -> Seq<Seq<char>>
    decreases answers.len(),
{
    if answers.len() == 0 {
        parts
    } else {
        with_answer(with_answers(parts, answers.drop_last()), answers.last().0@, answers.last().1)
    }
}

/// The context of a turn: what the memory files show, then what the providers answered.
pub open spec fn recalled(
    files: Option<(Seq<char>, Seq<char>)>,
    answers: Seq<(String, Result<String, String>)>,
) -> Seq<char> {
    let start = match files {
        Some((memory, user)) => file_parts(memory, user),
        None => Seq::empty(),
    };
    text::joined(with_answers(start, answers), "\n\n"@)
}

/// The texts in an optional pair of strings.
pub open spec fn pair_texts(o: Option<(String, String)>) -> Option<(Seq<char>, Seq<char>)> {
    match o {
        Some(p) => Some((p.0@, p.1@)),
        None => None,
    }
}

/// What is shown of the two memory files.
pub open spec fn snapshots(store: Option<FileMemoryStore>) -> Option<(Seq<char>, Seq<char>)> {
    match store {
        Some(s) => Some(
            (
                file_memory::snapshot_of(s.content(MemoryTarget::Memory)),
                file_memory::snapshot_of(s.content(MemoryTarget::User)),
            ),
        ),
        None => None,
    }
}

/// The answers are what the providers gave, each asked once with that query, in order.
pub open spec fn answered<P: MemoryProvider>(
    providers: Seq<P>,
    query: &str,
    session_id: &str,
    answers: Seq<(String, Result<String, String>)>,
) -> bool {
    &&& answers.len() == providers.len()
    &&& forall|i: int| #![trigger answers[i]]
        0 <= i < answers.len() ==> {
            &&& call_ensures(P::prefetch, (&providers[i], query, session_id), answers[i].1)
            &&& exists|n: &str| #![trigger n@]
                call_ensures(P::name, (&providers[i],), n) && n@ == answers[i].0@
        }
}

/// The names and errors of the providers that failed, in order.
pub open spec fn failures(results: Seq<(String, Result<(), String>)>) -> Seq<(Seq<char>, Seq<char>)>
    decreases results.len(),
{
    if results.len() == 0 {
        Seq::empty()
    } else {
        let rest = failures(results.drop_last());
        match results.last().1 {
            Ok(_) => rest,
            Err(e) => rest.push((results.last().0@, e@)),
        }
    }
}

/// The texts of a list of pairs.
pub open spec fn pairs(v: Seq<(String, String)>) -> Seq<(Seq<char>, Seq<char>)> {
    Seq::new(v.len(), |i: int| (v[i].0@, v[i].1@))
}

/// The results are what the providers gave when told of a turn, each once, in order.
pub open spec fn synced<P: MemoryProvider>(
    providers: Seq<P>,
    user: &str,
    assistant: &str,
    session_id: &str,
    results: Seq<(String, Result<(), String>)>,
) -> bool {
    &&& results.len() == providers.len()
    &&& forall|i: int| #![trigger results[i]]
        0 <= i < results.len() ==> {
            &&& call_ensures(
                P::sync_turn,
                (&providers[i], user, assistant, session_id),
                results[i].1,
            )
            &&& exists|n: &str| #![trigger n@]
                call_ensures(P::name, (&providers[i],), n) && n@ == results[i].0@
        }
}

/// The results are what the providers gave when told of the end of a session, each once, in
/// order.
pub open spec fn ended<P: MemoryProvider>(
    providers: Seq<P>,
    session_id: &str,
    results: Seq<(String, Result<(), String>)>,
) -> bool {
    &&& results.len() == providers.len()
    &&& forall|i: int| #![trigger results[i]]
        0 <= i < results.len() ==> {
            &&& call_ensures(P::on_session_end, (&providers[i], session_id), results[i].1)
            &&& exists|n: &str| #![trigger n@]
                call_ensures(P::name, (&providers[i],), n) && n@ == results[i].0@
        }
}

/// The names and errors of the providers that failed.
pub fn failed(results: &Vec<(String, Result<(), String>)>) -> (r: Vec<(String, String)>)
    ensures
        pairs(r@) == failures(results@),
{
    let mut out: Vec<(String, String)> = Vec::new();
    let mut i: usize = 0;
    assert(results@.take(0) =~= Seq::empty());
    assert(pairs(out@) =~= Seq::empty());
    while i < results.len()
        invariant
            i <= results@.len(),
            pairs(out@) == failures(results@.take(i as int)),
        decreases results@.len() - i,
    {
        let ghost before = pairs(out@);
        proof {
            assert(results@.take(i + 1).drop_last() =~= results@.take(i as int));
            assert(results@.take(i + 1).last() == results@[i as int]);
        }
        match &results[i].1 {
            Ok(_) => {},
            Err(e) => {
                out.push((results[i].0.clone(), e.clone()));
                assert(pairs(out@) =~= before.push((results@[i as int].0@, e@)));
            },
        }
        i = i + 1;
    }
    assert(results@.take(i as int) =~= results@);
    out
}

/// The context of a turn from what the memory files show and what the providers answered.
pub fn compose_context(
    files: &Option<(String, String)>,
    answers: &Vec<(String, Result<String, String>)>,
) -> (r: String)
    ensures
        r@ == recalled(pair_texts(*files), answers@),
{
    let mut parts: Vec<String> = Vec::new();
    assert(text::texts(parts@) =~= Seq::<Seq<char>>::empty());
    let ghost start = match pair_texts(*files) {
        Some((memory, user)) => file_parts(memory, user),
        None => Seq::empty(),
    };
    match files {
        Some(f) => {
            if f.0.as_str().unicode_len() > 0 {
                parts.push(text::concat2("## Agent Memory\n", f.0.as_str()));
            }
            if f.1.as_str().unicode_len() > 0 {
                parts.push(text::concat2("## User Profile\n", f.1.as_str()));
            }
        },
        None => {},
    }
    assert(text::texts(parts@) =~= start);
    let mut i: usize = 0;
    assert(answers@.take(0) =~= Seq::empty());
    while i < answers.len()
        invariant
            i <= answers@.len(),
            text::texts(parts@) == with_answers(start, answers@.take(i as int)),
        decreases answers@.len() - i,
    {
        let ghost before = text::texts(parts@);
        proof {
            assert(answers@.take(i + 1).drop_last() =~= answers@.take(i as int));
            assert(answers@.take(i + 1).last() == answers@[i as int]);
        }
        match &answers[i].1 {
            Ok(ctx) => {
                if text::trim(ctx.as_str()).unicode_len() > 0 {
                    parts.push(text::concat4("[", answers[i].0.as_str(), "]\n", ctx.as_str()));
                    assert(text::texts(parts@) =~= before.push(parts@.last()@));
                }
            },
            Err(_) => {},
        }
        i = i + 1;
    }
    assert(answers@.take(i as int) =~= answers@);
    text::join(&parts, "\n\n")
}

impl<P: MemoryProvider> MemoryManager<P> {
    /// A manager without memory files and providers.
    pub fn new() -> (r: Self)
        ensures
            r.providers@.len() == 0,
            r.file_memory is None,
    {
        MemoryManager { providers: Vec::new(), file_memory: None }
    }

    /// The manager with memory files.
    pub fn with_file_memory(self, store: FileMemoryStore) -> (r: Self)
        ensures
            r.providers == self.providers,
            r.file_memory == Some(store),
    {
        MemoryManager { providers: self.providers, file_memory: Some(store) }
    }

    /// Adds a provider, behind all others.
    pub fn add_provider(&mut self, provider: P)
        ensures
            final(self).providers@ == old(self).providers@.push(provider),
            final(self).file_memory == old(self).file_memory,
    {
        self.providers.push(provider);
    }

    /// The context for a query: asks every provider, in order. A provider that fails adds nothing.
    pub fn prefetch_all(&self, query: &str, session_id: &str) -> (r: String)
        ensures
            exists|answers: Seq<(String, Result<String, String>)>| #![trigger recalled(
                snapshots(self.file_memory), answers)]
                answered(self.providers@, query, session_id, answers) && r@ == recalled(
                    snapshots(self.file_memory),
                    answers,
                ),
    {
        let files: Option<(String, String)> = match &self.file_memory {
            Some(store) => Some(
                (store.snapshot(MemoryTarget::Memory), store.snapshot(MemoryTarget::User)),
            ),
            None => None,
        };
        let mut answers: Vec<(String, Result<String, String>)> = Vec::new();
        let mut i: usize = 0;
        while i < self.providers.len()
            invariant
                i <= self.providers@.len(),
                answered(self.providers@.take(i as int), query, session_id, answers@),
            decreases self.providers@.len() - i,
        {
            let ghost before = answers@;
            let p: &P = &self.providers[i];
            let answer: Result<String, String> = p.prefetch(query, session_id);
            let name: &str = p.name();
            answers.push((name.to_owned(), answer));
            proof {
                let done = self.providers@.take(i + 1);
                assert forall|j: int| #![trigger answers@[j]]
                    0 <= j < answers@.len() implies {
                    &&& call_ensures(P::prefetch, (&done[j], query, session_id), answers@[j].1)
                    &&& exists|n: &str| #![trigger n@]
                        call_ensures(P::name, (&done[j],), n) && n@ == answers@[j].0@
                } by {
                    if j < i {
                        assert(answers@[j] == before[j]);
                        assert(done[j] == self.providers@.take(i as int)[j]);
                        let n = choose|n: &str| #![trigger n@]
                            call_ensures(P::name, (&done[j],), n) && n@ == before[j].0@;
                        assert(n@ == answers@[j].0@);
                    } else {
                        assert(done[j] == *p);
                        assert(name@ == answers@[j].0@);
                    }
                }
                assert(answered(done, query, session_id, answers@));
            }
            i = i + 1;
        }
        assert(self.providers@.take(i as int) =~= self.providers@);
        assert(pair_texts(files) == snapshots(self.file_memory));
        let context: String = compose_context(&files, &answers);
        assert(context@ == recalled(snapshots(self.file_memory), answers@));
        context
    }

    /// Tells every provider of a turn, in order. Gives the name and the error of each that failed.
    pub fn sync_all(&self, user: &str, assistant: &str, session_id: &str) -> (r: Vec<
        (String, String),
    >)
        ensures
            exists|results: Seq<(String, Result<(), String>)>| #![trigger failures(results)]
                synced(self.providers@, user, assistant, session_id, results) && pairs(r@)
                    == failures(results),
    {
        let mut results: Vec<(String, Result<(), String>)> = Vec::new();
        let mut i: usize = 0;
        while i < self.providers.len()
            invariant
                i <= self.providers@.len(),
                synced(self.providers@.take(i as int), user, assistant, session_id, results@),
            decreases self.providers@.len() - i,
        {
            let ghost before = results@;
            let p: &P = &self.providers[i];
            let result: Result<(), String> = p.sync_turn(user, assistant, session_id);
            let name: &str = p.name();
            results.push((name.to_owned(), result));
            proof {
                let done = self.providers@.take(i + 1);
                assert forall|j: int| #![trigger results@[j]] 0 <= j < results@.len() implies {
                    &&& call_ensures(
                        P::sync_turn,
                        (&done[j], user, assistant, session_id),
                        results@[j].1,
                    )
                    &&& exists|n: &str| #![trigger n@]
                        call_ensures(P::name, (&done[j],), n) && n@ == results@[j].0@
                } by {
                    if j < i {
                        assert(results@[j] == before[j]);
                        assert(done[j] == self.providers@.take(i as int)[j]);
                    } else {
                        assert(name@ == results@[j].0@);
                    }
                }
            }
            i = i + 1;
        }
        assert(self.providers@.take(i as int) =~= self.providers@);
        failed(&results)
    }

    /// Tells every provider that a turn begins, in order.
    pub fn on_turn_start(&self, turn_number: usize, message: &str)
        ensures
            forall|i: int| #![trigger self.providers@[i]]
                0 <= i < self.providers@.len() ==> call_ensures(
                    P::on_turn_start,
                    (&self.providers@[i], turn_number, message),
                    (),
                ),
    {
        let mut i: usize = 0;
        while i < self.providers.len()
            invariant
                i <= self.providers@.len(),
                forall|k: int| #![trigger self.providers@[k]]
                    0 <= k < i ==> call_ensures(
                        P::on_turn_start,
                        (&self.providers@[k], turn_number, message),
                        (),
                    ),
            decreases self.providers@.len() - i,
        {
            self.providers[i].on_turn_start(turn_number, message);
            i = i + 1;
        }
    }

    /// Tells every provider that a session has ended, in order. Gives the name and the error of
    /// each that failed.
    pub fn on_session_end(&self, session_id: &str) -> (r: Vec<(String, String)>)
        ensures
            exists|results: Seq<(String, Result<(), String>)>| #![trigger failures(results)]
                ended(self.providers@, session_id, results) && pairs(r@) == failures(results),
    {
        let mut results: Vec<(String, Result<(), String>)> = Vec::new();
        let mut i: usize = 0;
        while i < self.providers.len()
            invariant
                i <= self.providers@.len(),
                ended(self.providers@.take(i as int), session_id, results@),
            decreases self.providers@.len() - i,
        {
            let ghost before = results@;
            let p: &P = &self.providers[i];
            let result: Result<(), String> = p.on_session_end(session_id);
            let name: &str = p.name();
            results.push((name.to_owned(), result));
            proof {
                let done = self.providers@.take(i + 1);
                assert forall|j: int| #![trigger results@[j]] 0 <= j < results@.len() implies {
                    &&& call_ensures(P::on_session_end, (&done[j], session_id), results@[j].1)
                    &&& exists|n: &str| #![trigger n@]
                        call_ensures(P::name, (&done[j],), n) && n@ == results@[j].0@
                } by {
                    if j < i {
                        assert(results@[j] == before[j]);
                        assert(done[j] == self.providers@.take(i as int)[j]);
                    } else {
                        assert(name@ == results@[j].0@);
                    }
                }
            }
            i = i + 1;
        }
        assert(self.providers@.take(i as int) =~= self.providers@);
        failed(&results)
    }
}

// ---------------------------------------------------------------------------
// The context block
// ---------------------------------------------------------------------------

/// The block in which recalled memories are handed to the model; empty where there are none.
pub open spec fn context_block(raw: Seq<char>) -> Seq<char> {
    if text::trimmed(raw).len() == 0 {
        Seq::empty()
    } else {
        "<memory-context>\n[System note: The following is recalled memory context, NOT new user input. Treat as authoritative reference data.]\n\n"@
            + raw + "\n</memory-context>"@
    }
}

/// The block in which recalled memories are handed to the model.
pub fn build_memory_context_block(raw_context: &str) -> (r: String)
    ensures
        r@ == context_block(raw_context@),
{
    if text::trim(raw_context).unicode_len() == 0 {
        String::new()
    } else {
        text::concat3(
            "<memory-context>\n[System note: The following is recalled memory context, NOT new user input. Treat as authoritative reference data.]\n\n",
            raw_context,
            "\n</memory-context>",
        )
    }
}

// ---------------------------------------------------------------------------
// What the built-in memory recalls
// ---------------------------------------------------------------------------

/// A titled list of lines, unless there are none.
pub open spec fn section(title: Seq<char>, lines: Seq<Seq<char>>) -> Seq<Seq<char>> {
    if lines.len() > 0 {
        seq![text::joined(seq![title] + lines, "\n"@)]
    } else {
        Seq::empty()
    }
}

/// The texts, each behind a dash.
pub open spec fn listed(items: Seq<Seq<char>>) -> Seq<Seq<char>> {
    Seq::new(items.len(), |i: int| "- "@ + items[i])
}

/// What the built-in memory recalls: the profile of the user, memories, and summaries of past
/// conversations.
pub open spec fn builtin_text(
    profile: Seq<Seq<char>>,
    memories: Seq<Seq<char>>,
    summaries: Seq<Seq<char>>,
) -> Seq<char> {
    text::joined(
        section("## User Profile"@, profile) + section("## Relevant Memories"@, memories) + section(
            "## Past Conversation Summaries"@,
            listed(summaries),
        ),
        "\n\n"@,
    )
}

fn push_section(parts: &mut Vec<String>, title: &str, lines: &Vec<String>)
    ensures
        text::texts(final(parts)@) == text::texts(old(parts)@) + section(
            title@,
            text::texts(lines@),
        ),
{
    let ghost start = text::texts(parts@);
    if lines.len() > 0 {
        let mut all: Vec<String> = Vec::new();
        all.push(title.to_owned());
        let ghost body = text::texts(lines@);
        assert(text::texts(all@) =~= seq![title@] + body.take(0));
        let mut i: usize = 0;
        while i < lines.len()
            invariant
                i <= lines@.len(),
                body == text::texts(lines@),
                text::texts(all@) == seq![title@] + body.take(i as int),
            decreases lines@.len() - i,
        {
            let ghost before = text::texts(all@);
            all.push(lines[i].clone());
            proof {
                assert(text::texts(all@) =~= before.push(body[i as int]));
                assert(body.take(i + 1) =~= body.take(i as int).push(body[i as int]));
                assert(text::texts(all@) =~= seq![title@] + body.take(i + 1));
            }
            i = i + 1;
        }
        assert(body.take(i as int) =~= body);
        parts.push(text::join(&all, "\n"));
    }
    assert(text::texts(parts@) =~= start + section(title@, text::texts(lines@)));
}

/// What the built-in memory recalls. The lines of the profile and of the memories come with
/// their dashes.
pub fn builtin_context(
    profile: &Vec<String>,
    memories: &Vec<String>,
    summaries: &Vec<String>,
) -> (r: String)
    ensures
        r@ == builtin_text(
            text::texts(profile@),
            text::texts(memories@),
            text::texts(summaries@),
        ),
{
    let mut parts: Vec<String> = Vec::new();
    assert(text::texts(parts@) =~= Seq::<Seq<char>>::empty());
    push_section(&mut parts, "## User Profile", profile);
    push_section(&mut parts, "## Relevant Memories", memories);
    let mut dashed: Vec<String> = Vec::new();
    let ghost body = listed(text::texts(summaries@));
    assert(text::texts(dashed@) =~= body.take(0));
    let mut i: usize = 0;
    while i < summaries.len()
        invariant
            i <= summaries@.len(),
            body == listed(text::texts(summaries@)),
            text::texts(dashed@) == body.take(i as int),
        decreases summaries@.len() - i,
    {
        let ghost before = text::texts(dashed@);
        dashed.push(text::concat2("- ", summaries[i].as_str()));
        proof {
            assert(text::texts(dashed@) =~= before.push(body[i as int]));
            assert(body.take(i + 1) =~= body.take(i as int).push(body[i as int]));
        }
        i = i + 1;
    }
    assert(body.take(i as int) =~= body);
    push_section(&mut parts, "## Past Conversation Summaries", &dashed);
    assert(text::texts(parts@) =~= section("## User Profile"@, text::texts(profile@)) + section(
        "## Relevant Memories"@,
        text::texts(memories@),
    ) + section("## Past Conversation Summaries"@, body));
    text::join(&parts, "\n\n")
}

// ---------------------------------------------------------------------------
// Keywords
// ---------------------------------------------------------------------------

/// How many of the words stand in the text.
pub open spec fn hits(content: Seq<char>, words: Seq<Seq<char>>) -> nat
    decreases words.len(),
{
    if words.len() == 0 {
        0
    } else {
        hits(content, words.drop_last()) + if text::includes(content, words.last()) {
            1nat
        } else {
            0nat
        }
    }
}

/// How many of the words stand in the text.
pub fn count_hits(content: &str, words: &Vec<String>) -> (r: usize)
    ensures
        r == hits(content@, text::texts(words@)),
        r <= words@.len(),
{
    let ghost all = text::texts(words@);
    let mut n: usize = 0;
    let mut i: usize = 0;
    assert(all.take(0) =~= Seq::<Seq<char>>::empty());
    while i < words.len()
        invariant
            i <= words@.len(),
            all == text::texts(words@),
            n == hits(content@, all.take(i as int)),
            n <= i,
        decreases words@.len() - i,
    {
        proof {
            assert(all.take(i + 1).drop_last() =~= all.take(i as int));
            assert(all.take(i + 1).last() == words@[i as int]@);
        }
        if text::contains(content, words[i].as_str()) {
            n = n + 1;
        }
        i = i + 1;
    }
    assert(all.take(i as int) =~= all);
    n
}

/// How many words of the query stand in a memory, letter case aside. A memory without a hit is
/// not recalled; each hit makes it rank higher.
pub fn keyword_hits(query: &str, key: &str, value: &str) -> (r: usize)
    ensures
        r == hits(
            unicode::lowercase(key@ + " "@ + value@),
            text::word_seq(unicode::lowercase(query@)),
        ),
{
    let words: Vec<String> = text::words(unicode::to_lower(query).as_str());
    let content: String = unicode::to_lower(text::concat3(key, " ", value).as_str());
    count_hits(content.as_str(), &words)
}

// ---------------------------------------------------------------------------
// Times
// ---------------------------------------------------------------------------

/// The whole days from the second time to the first, as `chrono` counts them; none where
/// `chrono` reads no time from one of the texts.
pub uninterp spec fn days_between(later: Seq<char>, earlier: Seq<char>) -> Option<i64>;

/// Calls `chrono::DateTime::parse_from_rfc3339` on both texts, and
/// `signed_duration_since(..).num_days()` on the times: the number of days depends on the texts
/// alone, and is given the name `days_between`.
#[verifier::external_body]
fn day_difference(later: &str, earlier: &str) -> (r: Option<i64>)
    ensures
        r == days_between(later@, earlier@),
{
    let a = chrono::DateTime::parse_from_rfc3339(later).ok()?;
    let b = chrono::DateTime::parse_from_rfc3339(earlier).ok()?;
    Some(a.signed_duration_since(b).num_days())
}

/// A number of days, none of them negative.
pub fn age_in_days(days: Option<i64>) -> (r: Option<u64>)
    ensures
        r == match days {
            Some(d) => Some(
                if d < 0 {
                    0
                } else {
                    d as u64
                },
            ),
            None => None::<u64>,
        },
{
    match days {
        Some(d) => if d < 0 {
            Some(0)
        } else {
            Some(d as u64)
        },
        None => None,
    }
}

/// How many days ago a memory was last changed; none where its time cannot be read.
pub fn recency_days(now: &str, updated_at: &str) -> (r: Option<u64>)
    ensures
        r == match days_between(now@, updated_at@) {
            Some(d) => Some(
                if d < 0 {
                    0
                } else {
                    d as u64
                },
            ),
            None => None::<u64>,
        },
{
    age_in_days(day_difference(now, updated_at))
}

/// The text of the time that many days before, as `chrono` writes it; none where there is no
/// such time or no time is read from the text.
pub uninterp spec fn earlier_time(now: Seq<char>, days: i32) -> Option<Seq<char>>;

/// Calls `chrono::DateTime::parse_from_rfc3339`, `checked_sub_signed` with that many days, and
/// `to_rfc3339`: the text depends on the arguments alone, and is given the name `earlier_time`.
#[verifier::external_body]
fn go_back(now: &str, days: i32) -> (r: Option<String>)
    ensures
        crate::models::opt_text(r) == earlier_time(now@, days),
{
    let t = chrono::DateTime::parse_from_rfc3339(now).ok()?;
    let back = chrono::TimeDelta::try_days(i64::from(days))?;
    Some(t.checked_sub_signed(back)?.to_rfc3339())
}

/// The time before which memories count as old.
pub fn cleanup_cutoff(now: &str, max_age_days: i32) -> (r: Option<String>)
    ensures
        crate::models::opt_text(r) == earlier_time(now@, max_age_days),
{
    go_back(now, max_age_days)
}

// ---------------------------------------------------------------------------
// Learning from a turn
// ---------------------------------------------------------------------------

/// The text is the end of a sentence.
pub open spec fn ends_sentence(c: char) -> bool {
    c == '.' || c == '!' || c == '?'
}

/// The first position, from `from` on, at which a sentence ends; the length where none does.
pub open spec fn sentence_end(s: Seq<char>, from: int) -> int
    decreases s.len() - from,
{
    if from < 0 || from >= s.len() {
        s.len() as int
    } else if ends_sentence(s[from]) {
        from
    } else {
        sentence_end(s, from + 1)
    }
}

/// Where, counted in bytes, the text behind the first `pattern` in `lower` begins.
pub open spec fn fact_start(lower: Seq<char>, pattern: Seq<char>) -> Option<int> {
    match text::found(lower, pattern) {
        Some(i) => Some(bytes::byte_len(lower.take(i)) as int + pattern.len()),
        None => None,
    }
}

/// What is said in the text from that byte on to the end of the sentence.
pub open spec fn fact_at(combined: Seq<char>, start: int) -> Seq<char> {
    let rest = bytes::byte_suffix(combined, start);
    text::trimmed(rest.take(sentence_end(rest, 0)))
}

/// How many bytes of a fact go into its key.
pub open spec fn key_bytes(fact: Seq<char>) -> int {
    if bytes::byte_len(fact) < 40 {
        bytes::byte_len(fact) as int
    } else {
        40
    }
}

/// A fact is worth keeping: it is not empty, and shorter than 200 bytes.
pub open spec fn worth_keeping(fact: Seq<char>) -> bool {
    fact.len() > 0 && bytes::byte_len(fact) < 200
}

/// The fact behind the first `pattern` can be taken out: the position that was found in the
/// text in small letters is one between two characters of the text itself, and so is the end of
/// the key.
pub open spec fn fact_readable(
    combined: Seq<char>,
    lower: Seq<char>,
    pattern: Seq<char>,
) -> bool {
    match fact_start(lower, pattern) {
        Some(start) => {
            let fact = fact_at(combined, start);
            bytes::cuttable(combined, start) && (worth_keeping(fact) ==> bytes::cuttable(
                fact,
                key_bytes(fact),
            ))
        },
        None => true,
    }
}

/// The memory made of the fact behind the first `pattern`: its key and its value.
pub open spec fn fact_of(
    combined: Seq<char>,
    lower: Seq<char>,
    pattern: Seq<char>,
) -> Seq<(Seq<char>, Seq<char>)> {
    match fact_start(lower, pattern) {
        Some(start) => {
            let fact = fact_at(combined, start);
            if worth_keeping(fact) {
                seq![("preference:"@ + bytes::byte_prefix(fact, key_bytes(fact)), fact)]
            } else {
                Seq::empty()
            }
        },
        None => Seq::empty(),
    }
}

/// The facts about likes and preferences can be taken out.
pub open spec fn facts_readable(combined: Seq<char>, lower: Seq<char>) -> bool {
    fact_readable(combined, lower, "i like "@) && fact_readable(combined, lower, "i prefer "@)
}

/// The memories made of what the text says of likes and preferences.
pub open spec fn facts(combined: Seq<char>, lower: Seq<char>) -> Seq<(Seq<char>, Seq<char>)> {
    fact_of(combined, lower, "i like "@) + fact_of(combined, lower, "i prefer "@)
}

fn find_sentence_end(s: &str) -> (r: usize)
    ensures
        r == sentence_end(s@, 0),
        r <= s@.len(),
{
    let chars: Vec<char> = text::chars_of(s);
    let mut i: usize = 0;
    while i < chars.len()
        invariant
            i <= chars@.len(),
            chars@ == s@,
            sentence_end(s@, 0) == sentence_end(s@, i as int),
        decreases chars@.len() - i,
    {
        let c: char = chars[i];
        if c == '.' || c == '!' || c == '?' {
            return i;
        }
        i = i + 1;
    }
    i
}

fn find_fact_start(lower: &str, pattern: &str) -> (r: Option<usize>)
    ensures
        match r {
            Some(n) => fact_start(lower@, pattern@) == Some(n as int),
            None => match fact_start(lower@, pattern@) {
                Some(n) => n > usize::MAX,
                None => true,
            },
        },
{
    match text::find(lower, pattern) {
        Some(i) => bytes::len(text::first_chars(lower, i)).checked_add(pattern.unicode_len()),
        None => None,
    }
}

fn take_fact(combined: &str, start: usize) -> (r: String)
    requires
        bytes::cuttable(combined@, start as int),
    ensures
        r@ == fact_at(combined@, start as int),
{
    let rest: &str = bytes::suffix(combined, start);
    let end: usize = find_sentence_end(rest);
    text::trim(text::first_chars(rest, end)).to_owned()
}

fn key_len(fact: &str) -> (r: usize)
    ensures
        r == key_bytes(fact@),
{
    let n: usize = bytes::len(fact);
    if n < 40 {
        n
    } else {
        40
    }
}

fn keeps(fact: &str) -> (r: bool)
    ensures
        r == worth_keeping(fact@),
{
    fact.unicode_len() > 0 && bytes::len(fact) < 200
}

proof fn lemma_cut_bound(s: &str, n: int)
    requires
        bytes::cuttable(s@, n),
    ensures
        n <= bytes::byte_len(s@),
{
    vstd::utf8::encode_utf8_valid_utf8(s@);
}

fn readable(combined: &str, lower: &str, pattern: &str) -> (r: bool)
    ensures
        r == fact_readable(combined@, lower@, pattern@),
{
    let _size: usize = bytes::len(combined);
    match find_fact_start(lower, pattern) {
        Some(start) => {
            if !bytes::can_cut(combined, start) {
                return false;
            }
            let fact: String = take_fact(combined, start);
            !keeps(fact.as_str()) || bytes::can_cut(fact.as_str(), key_len(fact.as_str()))
        },
        None => {
            proof {
                match fact_start(lower@, pattern@) {
                    Some(n) => {
                        if bytes::cuttable(combined@, n) {
                            lemma_cut_bound(combined, n);
                        }
                    },
                    None => {},
                }
            }
            match text::find(lower, pattern) {
                Some(_) => false,
                None => true,
            }
        },
    }
}

fn push_fact(out: &mut Vec<(String, String)>, combined: &str, lower: &str, pattern: &str)
    requires
        fact_readable(combined@, lower@, pattern@),
    ensures
        pairs(final(out)@) == pairs(old(out)@) + fact_of(combined@, lower@, pattern@),
{
    let ghost start_pairs = pairs(out@);
    let _size: usize = bytes::len(combined);
    match find_fact_start(lower, pattern) {
        Some(start) => {
            let fact: String = take_fact(combined, start);
            if keeps(fact.as_str()) {
                let key: String = text::concat2(
                    "preference:",
                    bytes::prefix(fact.as_str(), key_len(fact.as_str())),
                );
                out.push((key, fact));
            }
        },
        None => {
            proof {
                match fact_start(lower@, pattern@) {
                    Some(n) => {
                        lemma_cut_bound(combined, n);
                    },
                    None => {},
                }
            }
        },
    }
    assert(pairs(out@) =~= start_pairs + fact_of(combined@, lower@, pattern@));
}

/// The memories made of what a text says of likes and preferences; `lower` is the text in small
/// letters.
pub fn facts_in(combined: &str, lower: &str) -> (r: Vec<(String, String)>)
    requires
        facts_readable(combined@, lower@),
    ensures
        pairs(r@) == facts(combined@, lower@),
{
    let mut out: Vec<(String, String)> = Vec::new();
    assert(pairs(out@) =~= Seq::empty());
    push_fact(&mut out, combined, lower, "i like ");
    push_fact(&mut out, combined, lower, "i prefer ");
    assert(pairs(out@) =~= facts(combined@, lower@));
    out
}

/// The memories made of what the user and the agent said of likes and preferences; none where a
/// position in the text in small letters is not one in the text itself.
pub fn extract_facts_to_semantic(user: &str, assistant: &str) -> (r: Option<Vec<(String, String)>>)
    ensures
        ({
            let combined = user@ + " "@ + assistant@;
            let lower = unicode::lowercase(combined);
            match r {
                Some(v) => facts_readable(combined, lower) && pairs(v@) == facts(combined, lower),
                None => !facts_readable(combined, lower),
            }
        }),
{
    let combined: String = text::concat3(user, " ", assistant);
    let lower: String = unicode::to_lower(combined.as_str());
    if readable(combined.as_str(), lower.as_str(), "i like ") && readable(
        combined.as_str(),
        lower.as_str(),
        "i prefer ",
    ) {
        Some(facts_in(combined.as_str(), lower.as_str()))
    } else {
        None
    }
}

// ---------------------------------------------------------------------------
// Summaries of past turns
// ---------------------------------------------------------------------------

/// The first five words of a text, with one space between each two.
pub open spec fn topic(s: Seq<char>) -> Seq<char> {
    let words = text::word_seq(s);
    text::joined(
        if words.len() > 5 {
            words.take(5)
        } else {
            words
        },
        " "@,
    )
}

/// What the turns were about.
pub open spec fn topics(turns: Seq<(Seq<char>, Seq<char>)>) -> Seq<Seq<char>> {
    Seq::new(turns.len(), |i: int| topic(turns[i].0))
}

/// The summary of turns.
pub open spec fn turn_summary(turns: Seq<(Seq<char>, Seq<char>)>) -> Seq<char> {
    "Discussed: "@ + text::joined(topics(turns), "; "@)
}

fn topic_of(s: &str) -> (r: String)
    ensures
        r@ == topic(s@),
{
    let words: Vec<String> = text::words(s);
    let ghost all = text::texts(words@);
    let mut first: Vec<String> = Vec::new();
    let mut i: usize = 0;
    assert(text::texts(first@) =~= all.take(0));
    while i < words.len() && i < 5
        invariant
            i <= words@.len(),
            i <= 5,
            all == text::texts(words@),
            text::texts(first@) == all.take(i as int),
        decreases words@.len() - i,
    {
        let ghost before = text::texts(first@);
        first.push(words[i].clone());
        proof {
            assert(text::texts(first@) =~= before.push(all[i as int]));
            assert(all.take(i + 1) =~= all.take(i as int).push(all[i as int]));
        }
        i = i + 1;
    }
    proof {
        if i == all.len() {
            assert(all.take(i as int) =~= all);
        }
    }
    text::join(&first, " ")
}

/// The summary of turns, each given by what the user and the agent said.
pub fn format_summary(turns: &Vec<(String, String)>) -> (r: String)
    ensures
        r@ == turn_summary(pairs(turns@)),
{
    let ghost all = topics(pairs(turns@));
    let mut list: Vec<String> = Vec::new();
    let mut i: usize = 0;
    assert(text::texts(list@) =~= all.take(0));
    while i < turns.len()
        invariant
            i <= turns@.len(),
            all == topics(pairs(turns@)),
            text::texts(list@) == all.take(i as int),
        decreases turns@.len() - i,
    {
        let ghost before = text::texts(list@);
        list.push(topic_of(turns[i].0.as_str()));
        proof {
            assert(text::texts(list@) =~= before.push(all[i as int]));
            assert(all.take(i + 1) =~= all.take(i as int).push(all[i as int]));
        }
        i = i + 1;
    }
    assert(all.take(i as int) =~= all);
    text::concat2("Discussed: ", text::join(&list, "; ").as_str())
}

/// The turns that a summary is due for after that many turns.
pub open spec fn range_due(count: int, threshold: int) -> Option<Seq<char>> {
    if count % threshold == 0 {
        Some(
            "turns "@ + number::decimal((count - threshold + 1) as nat) + "-"@ + number::decimal(
                count as nat,
            ),
        )
    } else {
        None
    }
}

/// The turns that a summary is due for after that many turns: whenever another `threshold` of
/// them is full.
pub fn summary_range(count: usize, threshold: usize) -> (r: Option<String>)
    requires
        threshold > 0,
        count > 0,
    ensures
        crate::models::opt_text(r) == range_due(count as int, threshold as int),
{
    if count % threshold == 0 {
        proof {
            if count < threshold {
                vstd::arithmetic::div_mod::lemma_small_mod(count as nat, threshold as nat);
            }
        }
        let first: usize = count - threshold + 1;
        Some(
            text::concat4(
                "turns ",
                number::show_size(first).as_str(),
                "-",
                number::show_size(count).as_str(),
            ),
        )
    } else {
        None
    }
}

/// The settings of the built-in memory, and the number of the turn that it is at.
#[derive(Debug, Clone)]
pub struct BuiltinMemoryProvider {
    pub turn_count: usize,
    pub top_k: usize,
    pub summary_threshold: usize,
    pub hybrid_search: bool,
}

impl BuiltinMemoryProvider {
    /// The built-in memory before the first turn.
    pub fn new(top_k: usize, summary_threshold: usize, hybrid_search: bool) -> (r: Self)
        ensures
            r == (BuiltinMemoryProvider { turn_count: 0, top_k, summary_threshold, hybrid_search }),
    {
        BuiltinMemoryProvider { turn_count: 0, top_k, summary_threshold, hybrid_search }
    }

    /// The name of the provider.
    pub fn name(&self) -> (r: &'static str)
        ensures
            r@ == "builtin"@,
    {
        "builtin"
    }

    /// A turn of that number begins.
    pub fn on_turn_start(&mut self, turn_number: usize)
        ensures
            *final(self) == (BuiltinMemoryProvider { turn_count: turn_number, ..*old(self) }),
    {
        self.turn_count = turn_number;
    }

    /// Counts a turn that is over. Gives its number, and the turns that a summary is due for, if
    /// it is.
    pub fn sync_turn(&mut self) -> (r: (usize, Option<String>))
        requires
            old(self).turn_count < usize::MAX,
            old(self).summary_threshold > 0,
        ensures
            *final(self) == (BuiltinMemoryProvider {
                turn_count: (old(self).turn_count + 1) as usize,
                ..*old(self)
            }),
            r.0 == old(self).turn_count + 1,
            crate::models::opt_text(r.1) == range_due(
                old(self).turn_count + 1,
                old(self).summary_threshold as int,
            ),
    {
        self.turn_count = self.turn_count + 1;
        (self.turn_count, summary_range(self.turn_count, self.summary_threshold))
    }
}

/// The category that a memory is kept under.
pub fn category_or_general(category: Option<&str>) -> (r: String)
    ensures
        r@ == match category {
            Some(c) => c@,
            None => "general"@,
        },
{
    match category {
        Some(c) => c.to_owned(),
        None => "general".to_owned(),
    }
}

/// What a use of a tool adds to its counts of successes and failures.
pub fn usage_increments(success: bool) -> (r: (i64, i64))
    ensures
        r == if success {
            (1i64, 0i64)
        } else {
            (0i64, 1i64)
        },
{
    if success {
        (1, 0)
    } else {
        (0, 1)
    }
}

// ---------------------------------------------------------------------------
// Laws
// ---------------------------------------------------------------------------

/// The block handed to the model is empty exactly when nothing but white space was recalled.
pub proof fn law_block_is_empty_without_context(raw: Seq<char>)
    ensures
        context_block(raw).len() == 0 <==> text::trimmed(raw).len() == 0,
{
    reveal_strlit("\n</memory-context>");
}

/// A provider that fails, or finds nothing but white space, leaves the context as the others
/// make it.
pub proof fn law_silent_provider_adds_nothing(
    files: Option<(Seq<char>, Seq<char>)>,
    answers: Seq<(String, Result<String, String>)>,
    name: String,
    answer: Result<String, String>,
)
    requires
        match answer {
            Ok(ctx) => text::trimmed(ctx@).len() == 0,
            Err(_) => true,
        },
    ensures
        recalled(files, answers.push((name, answer))) == recalled(files, answers),
{
    assert(answers.push((name, answer)).drop_last() =~= answers);
}

/// The parts that a context begins with.
spec fn starting_parts(files: Option<(Seq<char>, Seq<char>)>) -> Seq<Seq<char>> {
    match files {
        Some((memory, user)) => file_parts(memory, user),
        None => Seq::empty(),
    }
}

proof fn lemma_answers_extend(
    parts: Seq<Seq<char>>,
    answers: Seq<(String, Result<String, String>)>,
    i: int,
)
    requires
        0 <= i <= answers.len(),
    ensures
        with_answers(parts, answers.take(i)).len() <= with_answers(parts, answers).len(),
        with_answers(parts, answers).take(with_answers(parts, answers.take(i)).len() as int)
            == with_answers(parts, answers.take(i)),
        parts.len() <= with_answers(parts, answers).len(),
        with_answers(parts, answers).take(parts.len() as int) == parts,
    decreases answers.len(),
{
    if answers.len() == 0 {
        assert(answers.take(i) =~= answers);
        assert(parts.take(parts.len() as int) =~= parts);
    } else {
        let front = answers.drop_last();
        let whole = with_answers(parts, answers);
        if i == answers.len() {
            assert(answers.take(i) =~= answers);
            lemma_answers_extend(parts, front, i - 1);
            assert(whole.take(whole.len() as int) =~= whole);
        } else {
            lemma_answers_extend(parts, front, i);
            assert(front.take(i) =~= answers.take(i));
            let n = with_answers(parts, answers.take(i)).len() as int;
            assert(whole.take(n) =~= with_answers(parts, front).take(n));
        }
        assert(whole.take(parts.len() as int) =~= with_answers(parts, front).take(
            parts.len() as int,
        ));
    }
}

proof fn lemma_answer_part(
    parts: Seq<Seq<char>>,
    answers: Seq<(String, Result<String, String>)>,
    i: int,
)
    requires
        0 <= i < answers.len(),
        answers[i].1 is Ok,
        !text::all_space(answers[i].1->Ok_0@),
    ensures
        ({
            let whole = with_answers(parts, answers);
            let k = with_answers(parts, answers.take(i)).len() as int;
            &&& parts.len() <= k < whole.len()
            &&& whole[k] == "["@ + answers[i].0@ + "]\n"@ + answers[i].1->Ok_0@
            &&& k < with_answers(parts, answers.take(i + 1)).len()
        }),
{
    let next = answers.take(i + 1);
    let k = with_answers(parts, answers.take(i)).len() as int;
    text::law_trimming_takes_only_space(answers[i].1->Ok_0@);
    assert(next.drop_last() =~= answers.take(i));
    assert(next.last() == answers[i]);
    lemma_answers_extend(parts, answers.take(i), 0);
    lemma_answers_extend(parts, answers, i + 1);
    let m = with_answers(parts, next).len() as int;
    assert(with_answers(parts, answers).take(m)[k] == with_answers(parts, answers)[k]);
}

/// The memory files are recalled, each whatever the other one shows: the notes of the agent, and
/// behind them the profile of the user.
pub proof fn law_memory_files_are_recalled(
    memory: Seq<char>,
    user: Seq<char>,
    answers: Seq<(String, Result<String, String>)>,
)
    ensures
        ({
            let context = recalled(Some((memory, user)), answers);
            let notes = "## Agent Memory\n"@ + memory;
            let profile = "## User Profile\n"@ + user;
            &&& memory.len() > 0 ==> text::includes(context, notes)
            &&& user.len() > 0 ==> text::includes(context, profile)
            &&& memory.len() > 0 && user.len() > 0 ==> text::stands_before(
                context,
                notes,
                profile,
            )
        }),
{
    let start = file_parts(memory, user);
    let parts = with_answers(start, answers);
    let n = start.len() as int;
    lemma_answers_extend(start, answers, 0);
    assert forall|k: int| 0 <= k < n implies #[trigger] parts[k] == start[k] by {
        assert(parts.take(n)[k] == parts[k]);
    }
    if memory.len() > 0 {
        assert(parts[0] == start[0]);
        text::law_joined_holds_every_part(parts, "\n\n"@, 0);
    }
    if user.len() > 0 {
        assert(parts[n - 1] == start[n - 1]);
        text::law_joined_holds_every_part(parts, "\n\n"@, n - 1);
        if memory.len() > 0 {
            text::law_joined_keeps_order(parts, "\n\n"@, 0, 1);
        }
    }
}

/// The answer of every provider that found something is recalled under the name of the provider;
/// the answers stand in the order of the providers, behind the memory files.
pub proof fn law_every_answer_is_recalled(
    files: Option<(Seq<char>, Seq<char>)>,
    answers: Seq<(String, Result<String, String>)>,
    i: int,
    j: int,
)
    requires
        0 <= i < answers.len(),
        answers[i].1 is Ok,
        !text::all_space(answers[i].1->Ok_0@),
    ensures
        ({
            let context = recalled(files, answers);
            let part = "["@ + answers[i].0@ + "]\n"@ + answers[i].1->Ok_0@;
            let other = "["@ + answers[j].0@ + "]\n"@ + answers[j].1->Ok_0@;
            &&& text::includes(context, part)
            &&& i < j < answers.len() && answers[j].1 is Ok && !text::all_space(
                answers[j].1->Ok_0@,
            ) ==> text::stands_before(context, part, other)
            &&& files is Some && (files->0).0.len() > 0 ==> text::stands_before(
                context,
                "## Agent Memory\n"@ + (files->0).0,
                part,
            )
            &&& files is Some && (files->0).1.len() > 0 ==> text::stands_before(
                context,
                "## User Profile\n"@ + (files->0).1,
                part,
            )
        }),
{
    let start = starting_parts(files);
    let parts = with_answers(start, answers);
    let sep = "\n\n"@;
    let k = with_answers(start, answers.take(i)).len() as int;
    lemma_answer_part(start, answers, i);
    text::law_joined_holds_every_part(parts, sep, k);
    if i < j < answers.len() && answers[j].1 is Ok && !text::all_space(answers[j].1->Ok_0@) {
        lemma_answer_part(start, answers, j);
        lemma_answers_extend(start, answers.take(j), i + 1);
        assert(answers.take(j).take(i + 1) =~= answers.take(i + 1));
        text::law_joined_keeps_order(
            parts,
            sep,
            k,
            with_answers(start, answers.take(j)).len() as int,
        );
    }
    let n = start.len() as int;
    lemma_answers_extend(start, answers, 0);
    assert forall|x: int| 0 <= x < n implies #[trigger] parts[x] == start[x] by {
        assert(parts.take(n)[x] == parts[x]);
    }
    if files is Some && (files->0).0.len() > 0 {
        assert(parts[0] == start[0]);
        text::law_joined_keeps_order(parts, sep, 0, k);
    }
    if files is Some && (files->0).1.len() > 0 {
        assert(parts[n - 1] == start[n - 1]);
        text::law_joined_keeps_order(parts, sep, n - 1, k);
    }
}

proof fn lemma_context_empty(
    files: Option<(Seq<char>, Seq<char>)>,
    answers: Seq<(String, Result<String, String>)>,
)
    ensures
        recalled(files, answers).len() == 0 <==> with_answers(
            starting_parts(files),
            answers,
        ).len() == 0,
    decreases answers.len(),
{
    let start = starting_parts(files);
    let parts = with_answers(start, answers);
    let sep = "\n\n"@;
    reveal_strlit("\n\n");
    reveal_strlit("## Agent Memory\n");
    reveal_strlit("## User Profile\n");
    reveal_strlit("]\n");
    if parts.len() == 1 {
        if answers.len() > 0 {
            lemma_context_empty(files, answers.drop_last());
        }
    }
}

/// One more answer adds its part at the end of the context and changes nothing before it.
pub proof fn law_context_grows_by_answers(
    files: Option<(Seq<char>, Seq<char>)>,
    answers: Seq<(String, Result<String, String>)>,
    name: String,
    found: String,
)
    requires
        !text::all_space(found@),
    ensures
        ({
            let before = recalled(files, answers);
            let part = "["@ + name@ + "]\n"@ + found@;
            recalled(files, answers.push((name, Ok(found)))) == if before.len() == 0 {
                part
            } else {
                before + "\n\n"@ + part
            }
        }),
{
    text::law_trimming_takes_only_space(found@);
    let all = answers.push((name, Ok(found)));
    assert(all.drop_last() =~= answers);
    let parts = with_answers(starting_parts(files), answers);
    lemma_context_empty(files, answers);
    text::law_joined_grows(parts, "\n\n"@, "["@ + name@ + "]\n"@ + found@);
}

/// Without providers the context is what the memory files show, and nothing where they show
/// nothing.
pub proof fn law_context_of_files_alone(memory: Seq<char>, user: Seq<char>)
    ensures
        ({
            let notes = "## Agent Memory\n"@ + memory;
            let profile = "## User Profile\n"@ + user;
            let context = recalled(Some((memory, user)), Seq::empty());
            &&& recalled(None, Seq::empty()).len() == 0
            &&& memory.len() == 0 && user.len() == 0 ==> context.len() == 0
            &&& memory.len() > 0 && user.len() == 0 ==> context == notes
            &&& memory.len() == 0 && user.len() > 0 ==> context == profile
            &&& memory.len() > 0 && user.len() > 0 ==> context == notes + "\n\n"@ + profile
        }),
{
    let notes = "## Agent Memory\n"@ + memory;
    let profile = "## User Profile\n"@ + user;
    text::law_joined_grows(seq![notes], "\n\n"@, profile);
    assert(text::joined(seq![notes], "\n\n"@) == notes);
    assert(seq![profile] =~= Seq::<Seq<char>>::empty().push(profile));
}

/// What was recalled is handed to the model whole, between a note that it is no input of the user
/// and the end of the block.
pub proof fn law_block_holds_the_context(raw: Seq<char>)
    requires
        !text::all_space(raw),
    ensures
        text::includes(context_block(raw), raw),
        text::stands_before(
            context_block(raw),
            "<memory-context>\n[System note: The following is recalled memory context, NOT new user input. Treat as authoritative reference data.]\n\n"@,
            raw,
        ),
        text::finishes(context_block(raw), raw + "\n</memory-context>"@),
{
    let note =
        "<memory-context>\n[System note: The following is recalled memory context, NOT new user input. Treat as authoritative reference data.]\n\n"@;
    let end = "\n</memory-context>"@;
    let none = Seq::<char>::empty();
    text::law_trimming_takes_only_space(raw);
    text::law_parts_are_in_the_whole(note, raw, end);
    assert(context_block(raw) =~= none + note + none + raw + end);
}

/// One more result adds the name and the error of a provider that failed, and nothing for one that
/// did not.
pub proof fn law_every_failure_is_reported(
    results: Seq<(String, Result<(), String>)>,
    name: String,
    error: String,
)
    ensures
        failures(results.push((name, Err(error)))) == failures(results).push((name@, error@)),
        failures(results.push((name, Ok(())))) == failures(results),
        failures(Seq::empty()).len() == 0,
{
    assert(results.push((name, Err(error))).drop_last() =~= results);
    assert(results.push((name, Ok(()))).drop_last() =~= results);
}

/// Every line of the profile, every memory and every summary is recalled, in this order and each
/// under its title.
pub proof fn law_builtin_memory_recalls_everything(
    profile: Seq<Seq<char>>,
    memories: Seq<Seq<char>>,
    summaries: Seq<Seq<char>>,
    i: int,
    j: int,
    k: int,
)
    ensures
        ({
            let context = builtin_text(profile, memories, summaries);
            &&& 0 <= i < profile.len() ==> text::stands_before(
                context,
                "## User Profile"@,
                profile[i],
            )
            &&& 0 <= j < memories.len() ==> text::stands_before(
                context,
                "## Relevant Memories"@,
                memories[j],
            )
            &&& 0 <= k < summaries.len() ==> text::stands_before(
                context,
                "## Past Conversation Summaries"@,
                "- "@ + summaries[k],
            )
            &&& 0 <= i < profile.len() && 0 <= j < memories.len() ==> text::includes(
                context,
                text::joined(seq!["## User Profile"@] + profile, "\n"@),
            ) && text::stands_before(
                context,
                text::joined(seq!["## User Profile"@] + profile, "\n"@),
                text::joined(seq!["## Relevant Memories"@] + memories, "\n"@),
            )
        }),
{
    let a = section("## User Profile"@, profile);
    let b = section("## Relevant Memories"@, memories);
    let c = section("## Past Conversation Summaries"@, listed(summaries));
    let parts = a + b + c;
    let sep = "\n\n"@;
    if 0 <= i < profile.len() {
        assert(parts[0] == a[0]);
        lemma_section_in_context(parts, 0, "## User Profile"@, profile, i);
    }
    if 0 <= j < memories.len() {
        let n = a.len() as int;
        assert(parts[n] == b[0]);
        lemma_section_in_context(parts, n, "## Relevant Memories"@, memories, j);
        if 0 <= i < profile.len() {
            text::law_joined_holds_every_part(parts, sep, 0);
            text::law_joined_keeps_order(parts, sep, 0, 1);
        }
    }
    if 0 <= k < summaries.len() {
        let n = (a + b).len() as int;
        assert(parts[n] == c[0]);
        lemma_section_in_context(
            parts,
            n,
            "## Past Conversation Summaries"@,
            listed(summaries),
            k,
        );
    }
}

proof fn lemma_section_in_context(
    parts: Seq<Seq<char>>,
    at: int,
    title: Seq<char>,
    lines: Seq<Seq<char>>,
    i: int,
)
    requires
        0 <= at < parts.len(),
        0 <= i < lines.len(),
        parts[at] == text::joined(seq![title] + lines, "\n"@),
    ensures
        text::stands_before(text::joined(parts, "\n\n"@), title, lines[i]),
{
    let all = seq![title] + lines;
    assert(all[0] == title && all[i + 1] == lines[i]);
    text::law_joined_keeps_order(all, "\n"@, 0, i + 1);
    text::law_joined_holds_every_part(parts, "\n\n"@, at);
    text::lemma_stands_before_through(
        text::joined(parts, "\n\n"@),
        parts[at],
        title,
        lines[i],
    );
}

/// Each word of a query that stands in a memory counts as one hit.
pub proof fn law_hits_count_words(content: Seq<char>, words: Seq<Seq<char>>, word: Seq<char>)
    ensures
        hits(content, Seq::empty()) == 0,
        text::includes(content, word) ==> hits(content, words.push(word)) == hits(content, words)
            + 1,
        !text::includes(content, word) ==> hits(content, words.push(word)) == hits(content, words),
{
    assert(words.push(word).drop_last() =~= words);
}

/// Every turn is told of in the summary of turns, in order, by the words that the user began with.
pub proof fn law_summary_tells_of_every_turn(
    turns: Seq<(Seq<char>, Seq<char>)>,
    i: int,
    j: int,
)
    requires
        0 <= i < turns.len(),
    ensures
        ({
            let words = text::word_seq(turns[i].0);
            let begin = text::joined(
                words.take(
                    if words.len() < 5 {
                        words.len() as int
                    } else {
                        5
                    },
                ),
                " "@,
            );
            &&& text::includes(turn_summary(turns), begin)
            &&& i < j < turns.len() ==> text::stands_before(
                turn_summary(turns),
                begin,
                topic(turns[j].0),
            )
        }),
{
    let words = text::word_seq(turns[i].0);
    if words.len() <= 5 {
        assert(words.take(words.len() as int) =~= words);
    }
    let parts = topics(turns);
    let body = text::joined(parts, "; "@);
    assert(parts[i] == topic(turns[i].0));
    text::law_joined_holds_every_part(parts, "; "@, i);
    text::lemma_includes_within("Discussed: "@, body, Seq::empty(), parts[i]);
    assert("Discussed: "@ + body + Seq::<char>::empty() =~= turn_summary(turns));
    if i < j < turns.len() {
        assert(parts[j] == topic(turns[j].0));
        text::law_joined_keeps_order(parts, "; "@, i, j);
        text::lemma_stands_before_within("Discussed: "@, body, Seq::empty(), parts[i], parts[j]);
    }
}

/// Summaries cover every turn once: one comes whenever another `threshold` of turns is full, and is
/// for those turns.
pub proof fn law_summaries_cover_every_turn(q: int, rest: int, threshold: int)
    requires
        threshold > 0,
        q >= 0,
        0 <= rest < threshold,
    ensures
        rest > 0 ==> range_due(q * threshold + rest, threshold) is None,
        rest == 0 && q > 0 ==> range_due(q * threshold, threshold) == Some(
            "turns "@ + number::decimal(((q - 1) * threshold + 1) as nat) + "-"@
                + number::decimal((q * threshold) as nat),
        ),
{
    vstd::arithmetic::div_mod::lemma_fundamental_div_mod_converse(
        q * threshold + rest,
        threshold,
        q,
        rest,
    );
    vstd::arithmetic::mul::lemma_mul_is_distributive_sub_other_way(threshold, q, 1);
}

proof fn lemma_sentence_end_is(s: Seq<char>, k: int, n: int)
    requires
        0 <= k <= n <= s.len(),
        forall|i: int| #![trigger s[i]] k <= i < n ==> !ends_sentence(s[i]),
        n < s.len() ==> ends_sentence(s[n]),
    ensures
        sentence_end(s, k) == n,
    decreases n - k,
{
    if k < n {
        assert(!ends_sentence(s[k]));
        lemma_sentence_end_is(s, k + 1, n);
    }
}

/// What is said behind the first pattern, up to the end of the sentence, is learnt, word for word
/// and in the letter case of the text, under a key that begins with it: `said` is the text up to
/// and with the pattern, and as long as what stands there in small letters.
pub proof fn law_preferences_are_learnt(
    said: Seq<char>,
    fact: Seq<char>,
    rest: Seq<char>,
    low: Seq<char>,
    pattern: Seq<char>,
    low_rest: Seq<char>,
)
    requires
        bytes::byte_len(said) == bytes::byte_len(low) + pattern.len(),
        forall|j: int|
            0 <= j < low.len() ==> !text::occurs_at(low + pattern + low_rest, pattern, j),
        forall|i: int| #![trigger fact[i]]
            0 <= i < fact.len() ==> fact[i] != '.' && fact[i] != '!' && fact[i] != '?',
        rest.len() > 0 ==> rest[0] == '.' || rest[0] == '!' || rest[0] == '?',
    ensures
        ({
            let learnt = fact_of(said + fact + rest, low + pattern + low_rest, pattern);
            let t = text::trimmed(fact);
            &&& t.len() == 0 || bytes::byte_len(t) >= 200 ==> learnt.len() == 0
            &&& t.len() > 0 && bytes::byte_len(t) < 200 ==> learnt.len() == 1 && learnt[0].1 == t
            &&& t.len() > 0 && bytes::byte_len(t) < 40 ==> learnt[0].0 == "preference:"@ + t
            &&& 40 <= bytes::byte_len(t) < 200 && bytes::cuttable(t, 40) ==> learnt[0].0
                == "preference:"@ + bytes::byte_prefix(t, 40)
        }),
        !text::includes(low, pattern) ==> fact_of(said, low, pattern).len() == 0,
{
    let combined = said + fact + rest;
    let lower = low + pattern + low_rest;
    let n = low.len() as int;
    assert(lower.subrange(n, n + pattern.len()) =~= pattern);
    text::lemma_found_is(lower, pattern, 0, n);
    assert(lower.take(n) =~= low);
    let behind = fact + rest;
    assert(combined =~= said + behind);
    bytes::law_texts_can_be_parted(said, behind);
    let m = fact.len() as int;
    assert forall|i: int| #![trigger behind[i]] 0 <= i < m implies !ends_sentence(behind[i]) by {
        assert(behind[i] == fact[i]);
    }
    if rest.len() > 0 {
        assert(behind[m] == rest[0]);
    }
    lemma_sentence_end_is(behind, 0, m);
    assert(behind.take(m) =~= fact);
    let t = text::trimmed(fact);
    let none = Seq::<char>::empty();
    bytes::law_texts_can_be_parted(t, none);
    assert(t + none =~= t);
    text::lemma_found_from(low, pattern, 0);
    match text::found(low, pattern) {
        Some(i) => {
            assert(text::occurs_at(low, pattern, i));
        },
        None => {},
    }
}

/// What is learnt is what follows on a like and then what follows on a preference.
pub proof fn law_likes_and_preferences(combined: Seq<char>, lower: Seq<char>)
    ensures
        facts(combined, lower).len() == fact_of(combined, lower, "i like "@).len() + fact_of(
            combined,
            lower,
            "i prefer "@,
        ).len(),
        forall|i: int| #![trigger fact_of(combined, lower, "i like "@)[i]]
            0 <= i < fact_of(combined, lower, "i like "@).len() ==> facts(
                combined,
                lower,
            ).contains(fact_of(combined, lower, "i like "@)[i]),
        forall|i: int| #![trigger fact_of(combined, lower, "i prefer "@)[i]]
            0 <= i < fact_of(combined, lower, "i prefer "@).len() ==> facts(
                combined,
                lower,
            ).contains(fact_of(combined, lower, "i prefer "@)[i]),
{
    let a = fact_of(combined, lower, "i like "@);
    let b = fact_of(combined, lower, "i prefer "@);
    let all = facts(combined, lower);
    assert forall|i: int| #![trigger a[i]] 0 <= i < a.len() implies all.contains(a[i]) by {
        assert(all[i] == a[i]);
    }
    assert forall|i: int| #![trigger b[i]] 0 <= i < b.len() implies all.contains(b[i]) by {
        assert(all[a.len() + i] == b[i]);
    }
}

} // verus!
