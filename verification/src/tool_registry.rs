//! The registry of tools, by name.

use crate::models;
use crate::models::{ToolSchema, ToolSchemaView, ToolSource};
use crate::text;
use vstd::prelude::*;

verus! {

/// A tool with the schema that the model sees, and where it comes from if that is known.
pub struct ToolEntry<T> {
    pub schema: ToolSchema,
    pub source: Option<ToolSource>,
    pub tool: T,
}

/// The tools, no two of them with the same name.
pub struct ToolRegistry<T> {
    tools: Vec<ToolEntry<T>>,
}

/// The position of the entry with the name, from `from` on; the length where there is none.
pub open spec fn position<T>(s: Seq<ToolEntry<T>>, name: Seq<char>, from: int) -> int
    decreases s.len() - from,
{
    if from < 0 || from >= s.len() {
        s.len() as int
    } else if s[from].schema.name@ == name {
        from
    } else {
        position(s, name, from + 1)
    }
}

/// There is a tool with the name.
pub open spec fn registered<T>(s: Seq<ToolEntry<T>>, name: Seq<char>) -> bool {
    exists|i: int| #![trigger s[i]] 0 <= i < s.len() && s[i].schema.name@ == name
}

/// No two entries have the same name.
pub open spec fn unique_names<T>(s: Seq<ToolEntry<T>>) -> bool {
    forall|i: int, j: int| #![trigger s[i], s[j]]
        0 <= i < j < s.len() ==> s[i].schema.name@ != s[j].schema.name@
}

/// The entries after one was put among them: in place of the one with its name, or at the end.
pub open spec fn put<T>(s: Seq<ToolEntry<T>>, e: ToolEntry<T>) -> Seq<ToolEntry<T>> {
    let k = position(s, e.schema.name@, 0);
    if k < s.len() {
        s.update(k, e)
    } else {
        s.push(e)
    }
}

/// Where the first entry with a name stands.
pub proof fn lemma_position<T>(s: Seq<ToolEntry<T>>, name: Seq<char>, from: int)
    requires
        0 <= from <= s.len(),
    ensures
        from <= position(s, name, from) <= s.len(),
        position(s, name, from) < s.len() ==> s[position(s, name, from)].schema.name@ == name,
        forall|i: int| #![trigger s[i]]
            from <= i < position(s, name, from) ==> s[i].schema.name@ != name,
    decreases s.len() - from,
{
    if from < s.len() && s[from].schema.name@ != name {
        lemma_position(s, name, from + 1);
    }
}

impl<T> View for ToolRegistry<T> {
    type V = Seq<ToolEntry<T>>;

    closed spec fn view(&self) -> Seq<ToolEntry<T>> {
        self.tools@
    }
}

/// The schemas of entries.
pub open spec fn schemas<T>(s: Seq<ToolEntry<T>>) -> Seq<ToolSchemaView> {
    Seq::new(s.len(), |i: int| s[i].schema@)
}

impl<T> ToolRegistry<T> {
    /// No two tools have the same name.
    pub open spec fn wf(&self) -> bool {
        unique_names(self@)
    }

    /// A registry without tools.
    pub fn new() -> (r: Self)
        ensures
            r@ == Seq::<ToolEntry<T>>::empty(),
            r.wf(),
    {
        ToolRegistry { tools: Vec::new() }
    }

    fn index_of(&self, name: &str) -> (r: usize)
        ensures
            r == position(self@, name@, 0),
            r <= self@.len(),
    {
        let n: usize = self.tools.len();
        let mut i: usize = 0;
        while i < n
            invariant
                i <= n == self.tools@.len(),
                self@ == self.tools@,
                position(self@, name@, 0) == position(self@, name@, i as int),
            decreases n - i,
        {
            if text::same(self.tools[i].schema.name.as_str(), name) {
                return i;
            }
            i = i + 1;
        }
        n
    }

    fn insert(&mut self, e: ToolEntry<T>)
        requires
            old(self).wf(),
        ensures
            final(self)@ == put(old(self)@, e),
            final(self).wf(),
    {
        let i: usize = self.index_of(e.schema.name.as_str());
        proof {
            lemma_position(self@, e.schema.name@, 0);
        }
        if i < self.tools.len() {
            self.tools.set(i, e);
        } else {
            self.tools.push(e);
        }
    }

    /// Registers a tool; one with the same name is replaced.
    pub fn register_tool(&mut self, schema: ToolSchema, tool: T)
        requires
            old(self).wf(),
        ensures
            final(self)@ == put(old(self)@, (ToolEntry { schema, source: None, tool })),
            final(self).wf(),
    {
        self.insert(ToolEntry { schema, source: None, tool });
    }

    /// Registers a tool of a known source; one with the same name is replaced.
    pub fn register_tool_legacy(&mut self, schema: ToolSchema, tool: T, source: ToolSource)
        requires
            old(self).wf(),
        ensures
            final(self)@ == put(old(self)@, (ToolEntry { schema, source: Some(source), tool })),
            final(self).wf(),
    {
        self.insert(ToolEntry { schema, source: Some(source), tool });
    }

    /// The tool with the name.
    pub fn get_tool(&self, name: &str) -> (r: Option<&T>)
        ensures
            ({
                let k = position(self@, name@, 0);
                match r {
                    Some(t) => registered(self@, name@) && k < self@.len() && *t == self@[k].tool,
                    None => !registered(self@, name@),
                }
            }),
    {
        let i: usize = self.index_of(name);
        proof {
            lemma_position(self@, name@, 0);
        }
        if i < self.tools.len() {
            Some(&self.tools[i].tool)
        } else {
            None
        }
    }

    /// Whether there is a tool with the name.
    pub fn has_tool(&self, name: &str) -> (r: bool)
        ensures
            r == registered(self@, name@),
    {
        self.get_tool(name).is_some()
    }

    /// The schemas of all tools.
    pub fn list_tools(&self) -> (r: Vec<ToolSchema>)
        ensures
            models::schemas(r@) == schemas(self@),
    {
        let mut out: Vec<ToolSchema> = Vec::new();
        let mut i: usize = 0;
        assert(models::schemas(out@) =~= schemas(self@).take(0));
        while i < self.tools.len()
            invariant
                i <= self.tools@.len(),
                self@ == self.tools@,
                models::schemas(out@) == schemas(self@).take(i as int),
            decreases self.tools@.len() - i,
        {
            let ghost before = models::schemas(out@);
            out.push(self.tools[i].schema.clone());
            proof {
                let next = schemas(self@)[i as int];
                assert(models::schemas(out@) =~= before.push(next));
                assert(schemas(self@).take(i + 1) =~= before.push(next));
            }
            i = i + 1;
        }
        assert(schemas(self@).take(i as int) =~= schemas(self@));
        out
    }

    /// The tool that a call of the name goes to, or the error that it is answered with.
    pub fn dispatch(&self, name: &str) -> (r: Result<&T, String>)
        ensures
            ({
                let k = position(self@, name@, 0);
                match r {
                    Ok(t) => registered(self@, name@) && k < self@.len() && *t == self@[k].tool,
                    Err(e) => !registered(self@, name@) && e@ == "Tool '"@ + name@
                        + "' not found"@,
                }
            }),
    {
        match self.get_tool(name) {
            Some(t) => Ok(t),
            None => Err(text::concat3("Tool '", name, "' not found")),
        }
    }

    /// Meant to remove the tools of a source. Tools are not told apart by their source yet, so
    /// all of them stay.
    pub fn remove_tools_from_source(&mut self, _source: &ToolSource)
        ensures
            final(self)@ == old(self)@,
    {
    }

    /// The number of tools.
    pub fn len(&self) -> (r: usize)
        ensures
            r == self@.len(),
    {
        self.tools.len()
    }
}

impl<T> Default for ToolRegistry<T> {
    fn default() -> (r: Self)
        ensures
            r@ == Seq::<ToolEntry<T>>::empty(),
            r.wf(),
    {
        ToolRegistry { tools: Vec::new() }
    }
}

// ---------------------------------------------------------------------------
// Laws
// ---------------------------------------------------------------------------

/// A tool that was registered is found under its name, and every other name leads where it led
/// before.
pub proof fn law_registered_tool_is_found<T>(
    s: Seq<ToolEntry<T>>,
    e: ToolEntry<T>,
    other: Seq<char>,
)
    requires
        unique_names(s),
        other != e.schema.name@,
    ensures
        ({
            let t = put(s, e);
            let k = position(t, e.schema.name@, 0);
            &&& unique_names(t)
            &&& registered(t, e.schema.name@)
            &&& k < t.len() && t[k] == e
            &&& registered(t, other) == registered(s, other)
            &&& registered(s, other) ==> t[position(t, other, 0)] == s[position(s, other, 0)]
        }),
{
    let name = e.schema.name@;
    let t = put(s, e);
    lemma_position(s, name, 0);
    lemma_position(t, name, 0);
    lemma_position(s, other, 0);
    lemma_position(t, other, 0);
    let i = position(s, name, 0);
    if i < s.len() {
        assert(t[i] == e);
    } else {
        assert(t[s.len() as int] == e);
    }
    if registered(s, other) {
        let j = choose|j: int| #![trigger s[j]] 0 <= j < s.len() && s[j].schema.name@ == other;
        assert(t[j] == s[j]);
    }
    if registered(t, other) {
        let j = choose|j: int| #![trigger t[j]] 0 <= j < t.len() && t[j].schema.name@ == other;
        assert(j < s.len() && t[j] == s[j]);
    }
}

/// Registering a tool adds one to the number of tools, unless its name was taken.
pub proof fn law_registry_size<T>(s: Seq<ToolEntry<T>>, e: ToolEntry<T>)
    ensures
        put(s, e).len() == if registered(s, e.schema.name@) {
            s.len()
        } else {
            s.len() + 1
        },
{
    lemma_position(s, e.schema.name@, 0);
    if registered(s, e.schema.name@) {
        let j = choose|j: int| #![trigger s[j]]
            0 <= j < s.len() && s[j].schema.name@ == e.schema.name@;
        assert(position(s, e.schema.name@, 0) <= j);
    }
}

/// Registering a tool leaves every tool with another name where it stands; a new tool stands
/// behind them, and one whose name was taken in the place of the other.
pub proof fn law_other_tools_stay<T>(s: Seq<ToolEntry<T>>, e: ToolEntry<T>, i: int)
    requires
        0 <= i < s.len(),
        unique_names(s),
    ensures
        s[i].schema.name@ != e.schema.name@ ==> put(s, e)[i] == s[i],
        s[i].schema.name@ == e.schema.name@ ==> put(s, e)[i] == e && put(s, e).len() == s.len(),
        !registered(s, e.schema.name@) ==> put(s, e).last() == e,
        schemas(s)[i] == s[i].schema@,
        schemas(s).len() == s.len(),
{
    lemma_position(s, e.schema.name@, 0);
    let k = position(s, e.schema.name@, 0);
    if k < s.len() {
        assert(s[k].schema.name@ == e.schema.name@);
    }
}

} // verus!
