//! Background tasks: which there are, and what is said of them.

use crate::number;
use crate::observer::LogLevel;
use crate::text;
use vstd::prelude::*;

verus! {

/// A task that is run from time to time.
#[derive(Debug, Clone, Copy, PartialEq, Eq, Structural)]
pub enum HeartbeatTask {
    AutoSummarize,
    MemoryCleanup,
    ProfileReport,
}

/// The task of that name.
pub open spec fn task_named(name: Seq<char>) -> Option<HeartbeatTask> {
    if name == "auto_summarize"@ {
        Some(HeartbeatTask::AutoSummarize)
    } else if name == "memory_cleanup"@ {
        Some(HeartbeatTask::MemoryCleanup)
    } else if name == "profile_report"@ {
        Some(HeartbeatTask::ProfileReport)
    } else {
        None
    }
}

/// The tasks of those names, in order; names of no task are left out.
pub open spec fn tasks_named(names: Seq<Seq<char>>) -> Seq<HeartbeatTask>
    decreases names.len(),
{
    if names.len() == 0 {
        Seq::empty()
    } else {
        let rest = tasks_named(names.drop_last());
        match task_named(names.last()) {
            Some(t) => rest.push(t),
            None => rest,
        }
    }
}

/// The names of no task, in order.
pub open spec fn unknown_names(names: Seq<Seq<char>>) -> Seq<Seq<char>>
    decreases names.len(),
{
    if names.len() == 0 {
        Seq::empty()
    } else {
        let rest = unknown_names(names.drop_last());
        match task_named(names.last()) {
            Some(_) => rest,
            None => rest.push(names.last()),
        }
    }
}

/// The task of that name.
pub fn parse_task(name: &str) -> (r: Option<HeartbeatTask>)
    ensures
        r == task_named(name@),
{
    if text::same(name, "auto_summarize") {
        Some(HeartbeatTask::AutoSummarize)
    } else if text::same(name, "memory_cleanup") {
        Some(HeartbeatTask::MemoryCleanup)
    } else if text::same(name, "profile_report") {
        Some(HeartbeatTask::ProfileReport)
    } else {
        None
    }
}

/// The tasks of those names, and the names of no task. Without a task nothing is to be started.
pub fn parse_tasks(names: &Vec<String>) -> (r: (Vec<HeartbeatTask>, Vec<String>))
    ensures
        r.0@ == tasks_named(text::texts(names@)),
        text::texts(r.1@) == unknown_names(text::texts(names@)),
{
    let ghost all = text::texts(names@);
    let mut tasks: Vec<HeartbeatTask> = Vec::new();
    let mut unknown: Vec<String> = Vec::new();
    let mut i: usize = 0;
    assert(all.take(0) =~= Seq::<Seq<char>>::empty());
    assert(text::texts(unknown@) =~= Seq::<Seq<char>>::empty());
    while i < names.len()
        invariant
            i <= names@.len(),
            all == text::texts(names@),
            tasks@ == tasks_named(all.take(i as int)),
            text::texts(unknown@) == unknown_names(all.take(i as int)),
        decreases names@.len() - i,
    {
        let ghost before = text::texts(unknown@);
        proof {
            assert(all.take(i + 1).drop_last() =~= all.take(i as int));
            assert(all.take(i + 1).last() == names@[i as int]@);
        }
        match parse_task(names[i].as_str()) {
            Some(t) => {
                tasks.push(t);
            },
            None => {
                unknown.push(names[i].clone());
                assert(text::texts(unknown@) =~= before.push(names@[i as int]@));
            },
        }
        i = i + 1;
    }
    assert(all.take(i as int) =~= all);
    (tasks, unknown)
}

/// The age in days from which on unimportant memories are cleaned up.
pub const CLEANUP_MAX_AGE_DAYS: i32 = 30;

/// What is said of a cleanup that removed that many memories.
pub fn cleanup_report(deleted: usize) -> (r: (LogLevel, String))
    ensures
        if deleted > 0 {
            r.0 == LogLevel::Info && r.1@ == "[heartbeat] Cleaned up "@ + number::decimal(
                deleted as nat,
            ) + " old memories"@
        } else {
            r.0 == LogLevel::Debug && r.1@ == "[heartbeat] No old memories to clean up"@
        },
{
    if deleted > 0 {
        (
            LogLevel::Info,
            text::concat3(
                "[heartbeat] Cleaned up ",
                number::show_size(deleted).as_str(),
                " old memories",
            ),
        )
    } else {
        (LogLevel::Debug, "[heartbeat] No old memories to clean up".to_owned())
    }
}

// ---------------------------------------------------------------------------
// Laws
// ---------------------------------------------------------------------------

/// Every name is either that of a task, which is then run, or reported as unknown; there are as
/// many of both together as there are names.
pub proof fn law_no_name_is_lost(names: Seq<Seq<char>>)
    ensures
        tasks_named(names).len() + unknown_names(names).len() == names.len(),
        forall|i: int|
            0 <= i < names.len() ==> match task_named(#[trigger] names[i]) {
                Some(t) => tasks_named(names).contains(t),
                None => unknown_names(names).contains(names[i]),
            },
    decreases names.len(),
{
    if names.len() > 0 {
        let front = names.drop_last();
        law_no_name_is_lost(front);
        assert forall|i: int| 0 <= i < names.len() implies match task_named(#[trigger] names[i]) {
            Some(t) => tasks_named(names).contains(t),
            None => unknown_names(names).contains(names[i]),
        } by {
            if i < front.len() {
                assert(front[i] == names[i]);
                match task_named(names[i]) {
                    Some(t) => {
                        let k = tasks_named(front).index_of(t);
                        assert(tasks_named(names)[k] == t);
                    },
                    None => {
                        let k = unknown_names(front).index_of(names[i]);
                        assert(unknown_names(names)[k] == names[i]);
                    },
                }
            } else {
                match task_named(names[i]) {
                    Some(t) => {
                        assert(tasks_named(names).last() == t);
                    },
                    None => {
                        assert(unknown_names(names).last() == names[i]);
                    },
                }
            }
        }
    }
}

/// Tasks are taken in the order of their names, each under its own name: the tasks of two lists of
/// names are those of the first and then those of the second.
pub proof fn law_tasks_keep_their_order(a: Seq<Seq<char>>, b: Seq<Seq<char>>)
    ensures
        tasks_named(a + b) == tasks_named(a) + tasks_named(b),
        unknown_names(a + b) == unknown_names(a) + unknown_names(b),
        tasks_named(seq!["auto_summarize"@]) == seq![HeartbeatTask::AutoSummarize],
        tasks_named(seq!["memory_cleanup"@]) == seq![HeartbeatTask::MemoryCleanup],
        tasks_named(seq!["profile_report"@]) == seq![HeartbeatTask::ProfileReport],
    decreases b.len(),
{
    reveal_with_fuel(tasks_named, 2);
    let none = Seq::<Seq<char>>::empty();
    assert(seq!["auto_summarize"@].drop_last() =~= none);
    assert(seq!["memory_cleanup"@].drop_last() =~= none);
    assert(seq!["profile_report"@].drop_last() =~= none);
    reveal_strlit("auto_summarize");
    reveal_strlit("memory_cleanup");
    reveal_strlit("profile_report");
    assert("auto_summarize"@[0] == 'a' && "memory_cleanup"@[0] == 'm' && "profile_report"@[0]
        == 'p');
    assert(tasks_named(seq!["auto_summarize"@]) =~= seq![HeartbeatTask::AutoSummarize]);
    assert(tasks_named(seq!["memory_cleanup"@]) =~= seq![HeartbeatTask::MemoryCleanup]);
    assert(tasks_named(seq!["profile_report"@]) =~= seq![HeartbeatTask::ProfileReport]);
    if b.len() == 0 {
        assert(a + b =~= a);
        assert(tasks_named(a) + tasks_named(b) =~= tasks_named(a));
        assert(unknown_names(a) + unknown_names(b) =~= unknown_names(a));
    } else {
        law_tasks_keep_their_order(a, b.drop_last());
        assert((a + b).drop_last() =~= a + b.drop_last());
        assert(tasks_named(a + b) =~= tasks_named(a) + tasks_named(b));
        assert(unknown_names(a + b) =~= unknown_names(a) + unknown_names(b));
    }
}

} // verus!
