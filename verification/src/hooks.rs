//! Hooks: the order in which handlers run, and what comes of a chain of them.

use vstd::prelude::*;

verus! {

/// What a modifying hook answers: data to go on with, or the reason to stop.
#[derive(Debug, Clone)]
pub enum HookResult<T> {
    Continue(T),
    Cancel(String),
}

impl<T> HookResult<T> {
    /// Whether the hook stopped the chain.
    pub fn is_cancel(&self) -> (r: bool)
        ensures
            r == (self is Cancel),
    {
        match self {
            HookResult::Cancel(_) => true,
            HookResult::Continue(_) => false,
        }
    }
}

// ---------------------------------------------------------------------------
// Handlers in the order of their priority
// ---------------------------------------------------------------------------

/// The registered handlers, each with its priority, those with the higher priority first.
pub struct HookRunner<H> {
    handlers: Vec<(i32, H)>,
}

impl<H> View for HookRunner<H> {
    type V = Seq<(i32, H)>;

    closed spec fn view(&self) -> Seq<(i32, H)> {
        self.handlers@
    }
}

/// No handler stands behind one of a lower priority.
pub open spec fn by_priority<H>(s: Seq<(i32, H)>) -> bool {
    forall|i: int, j: int| #![trigger s[i], s[j]] 0 <= i <= j < s.len() ==> s[i].0 >= s[j].0
}

/// The number of leading handlers whose priority is at least `p`.
pub open spec fn place<H>(s: Seq<(i32, H)>, p: i32) -> int
    decreases s.len(),
{
    if s.len() == 0 || s.first().0 < p {
        0
    } else {
        1 + place(s.drop_first(), p)
    }
}

proof fn lemma_place<H>(s: Seq<(i32, H)>, p: i32)
    ensures
        0 <= place(s, p) <= s.len(),
        forall|i: int| #![trigger s[i]] 0 <= i < place(s, p) ==> s[i].0 >= p,
        place(s, p) < s.len() ==> s[place(s, p)].0 < p,
    decreases s.len(),
{
    if s.len() > 0 && s.first().0 >= p {
        let rest = s.drop_first();
        lemma_place(rest, p);
        assert forall|i: int| #![trigger s[i]] 0 <= i < place(s, p) implies s[i].0 >= p by {
            if i > 0 {
                assert(rest[i - 1] == s[i]);
            }
        }
    }
}

impl<H> HookRunner<H> {
    /// A runner without handlers.
    pub fn new() -> (r: Self)
        ensures
            r@ == Seq::<(i32, H)>::empty(),
            by_priority(r@),
    {
        HookRunner { handlers: Vec::new() }
    }

    /// Adds a handler, behind all those whose priority is not lower.
    pub fn register(&mut self, handler: H, priority: i32)
        requires
            by_priority(old(self)@),
        ensures
            final(self)@ == old(self)@.insert(
                place(old(self)@, priority),
                (priority, handler),
            ),
            by_priority(final(self)@),
    {
        let ghost s = self.handlers@;
        let n: usize = self.handlers.len();
        let mut i: usize = 0;
        proof {
            assert(s.skip(0) =~= s);
        }
        while i < n && self.handlers[i].0 >= priority
            invariant
                i <= n == self.handlers@.len(),
                s == self.handlers@,
                place(s, priority) == i + place(s.skip(i as int), priority),
            decreases n - i,
        {
            proof {
                assert(s.skip(i as int).drop_first() =~= s.skip(i + 1));
            }
            i = i + 1;
        }
        proof {
            lemma_place(s, priority);
        }
        self.handlers.insert(i, (priority, handler));
    }

    /// Whether there is no handler.
    pub fn is_empty(&self) -> (r: bool)
        ensures
            r == (self@.len() == 0),
    {
        self.handlers.len() == 0
    }

    /// The number of handlers.
    pub fn len(&self) -> (r: usize)
        ensures
            r == self@.len(),
    {
        self.handlers.len()
    }

    /// The handler at a position in the order in which they run.
    pub fn handler(&self, i: usize) -> (r: &H)
        requires
            i < self@.len(),
        ensures
            *r == self@[i as int].1,
    {
        &self.handlers[i].1
    }

    /// A chain of all handlers, in order, that starts with a value.
    pub fn chain<T>(&self, value: T) -> (r: HookChain<T>)
        ensures
            r.next == 0,
            r.count == self@.len(),
            r.state == HookResult::Continue(value),
            r.wf(),
    {
        HookChain { next: 0, count: self.handlers.len(), state: HookResult::Continue(value) }
    }
}

impl<H> Default for HookRunner<H> {
    fn default() -> (r: Self)
        ensures
            r@ == Seq::<(i32, H)>::empty(),
    {
        HookRunner { handlers: Vec::new() }
    }
}

// ---------------------------------------------------------------------------
// Chains of modifying hooks
// ---------------------------------------------------------------------------

/// How a call of a hook ended.
pub enum HookOutcome<T> {
    Answered(HookResult<T>),
    Panicked,
}

/// A chain of modifying hooks that is being run: which comes next, of how many, and what the
/// hooks so far made of the value.
pub struct HookChain<T> {
    pub next: usize,
    pub count: usize,
    pub state: HookResult<T>,
}

/// What a chain has come to after one more outcome: a chain that was stopped stays so, and a
/// hook that panicked changes nothing.
pub open spec fn advanced<T>(state: HookResult<T>, outcome: HookOutcome<T>) -> HookResult<T> {
    match state {
        HookResult::Cancel(reason) => HookResult::Cancel(reason),
        HookResult::Continue(v) => match outcome {
            HookOutcome::Answered(r) => r,
            HookOutcome::Panicked => HookResult::Continue(v),
        },
    }
}

/// What a chain comes to after a number of outcomes.
pub open spec fn settled<T>(value: T, outcomes: Seq<HookOutcome<T>>) -> HookResult<T>
    decreases outcomes.len(),
{
    if outcomes.len() == 0 {
        HookResult::Continue(value)
    } else {
        advanced(settled(value, outcomes.drop_last()), outcomes.last())
    }
}

impl<T> HookChain<T> {
    /// The position does not run past the number of hooks.
    pub open spec fn wf(&self) -> bool {
        self.next <= self.count
    }

    /// Whether no further hook is to be run.
    pub open spec fn done(&self) -> bool {
        self.state is Cancel || self.next >= self.count
    }

    /// Whether no further hook is to be run: all have been, or one has stopped the chain.
    pub fn is_done(&self) -> (r: bool)
        ensures
            r == self.done(),
    {
        self.state.is_cancel() || self.next >= self.count
    }

    /// Takes the outcome of the hook that was next.
    pub fn step(self, outcome: HookOutcome<T>) -> (r: Self)
        requires
            self.wf(),
            !self.done(),
        ensures
            r.wf(),
            r.next == self.next + 1,
            r.count == self.count,
            r.state == advanced(self.state, outcome),
    {
        let next: usize = self.next + 1;
        let count: usize = self.count;
        match outcome {
            HookOutcome::Answered(result) => HookChain { next, count, state: result },
            HookOutcome::Panicked => HookChain { next, count, state: self.state },
        }
    }
}

// ---------------------------------------------------------------------------
// Laws
// ---------------------------------------------------------------------------

/// Registering a handler keeps every other one, in the same order among themselves.
pub proof fn law_register_keeps_order<H>(s: Seq<(i32, H)>, handler: H, p: i32)
    requires
        by_priority(s),
    ensures
        ({
            let k = place(s, p);
            let t = s.insert(k, (p, handler));
            &&& 0 <= k <= s.len()
            &&& by_priority(t)
            &&& t.remove(k) == s
        }),
{
    lemma_place(s, p);
    let k = place(s, p);
    let t = s.insert(k, (p, handler));
    assert(t.remove(k) =~= s);
}

/// Handlers of the same priority run in the order in which they were registered: a handler is
/// put behind all those of its priority, and before all those of a lower one.
pub proof fn law_equal_priority_in_order_of_registration<H>(s: Seq<(i32, H)>, p: i32, i: int)
    requires
        by_priority(s),
        0 <= i < s.len(),
    ensures
        s[i].0 >= p <==> i < place(s, p),
{
    lemma_place(s, p);
}

/// Once a hook has stopped the chain, no later outcome changes what the chain comes to.
pub proof fn law_cancel_is_final<T>(
    value: T,
    outcomes: Seq<HookOutcome<T>>,
    more: Seq<HookOutcome<T>>,
)
    requires
        settled(value, outcomes) is Cancel,
    ensures
        settled(value, outcomes + more) == settled(value, outcomes),
    decreases more.len(),
{
    if more.len() > 0 {
        law_cancel_is_final(value, outcomes, more.drop_last());
        assert((outcomes + more).drop_last() =~= outcomes + more.drop_last());
    } else {
        assert(outcomes + more =~= outcomes);
    }
}

/// A chain of hooks that all panicked leaves the value as it was.
pub proof fn law_panics_change_nothing<T>(value: T, outcomes: Seq<HookOutcome<T>>)
    requires
        forall|i: int| #![trigger outcomes[i]]
            0 <= i < outcomes.len() ==> outcomes[i] is Panicked,
    ensures
        settled(value, outcomes) == HookResult::Continue(value),
    decreases outcomes.len(),
{
    if outcomes.len() > 0 {
        law_panics_change_nothing(value, outcomes.drop_last());
    }
}

/// The last hook has the last word: what it makes of the value is what the chain comes to, its
/// reason to stop is the reason, and if it panics the value stays as the others left it.
pub proof fn law_hooks_hand_the_value_on<T>(
    value: T,
    outcomes: Seq<HookOutcome<T>>,
    given: T,
    reason: String,
)
    requires
        settled(value, outcomes) is Continue,
    ensures
        settled(value, outcomes.push(HookOutcome::Answered(HookResult::Continue(given))))
            == HookResult::Continue(given),
        settled(value, outcomes.push(HookOutcome::Answered(HookResult::<T>::Cancel(reason))))
            == HookResult::<T>::Cancel(reason),
        settled(value, outcomes.push(HookOutcome::Panicked)) == settled(value, outcomes),
        settled(value, Seq::empty()) == HookResult::Continue(value),
{
    assert(outcomes.push(HookOutcome::Answered(HookResult::Continue(given))).drop_last()
        =~= outcomes);
    assert(outcomes.push(HookOutcome::Answered(HookResult::<T>::Cancel(reason))).drop_last()
        =~= outcomes);
    assert(outcomes.push(HookOutcome::Panicked).drop_last() =~= outcomes);
}

} // verus!
