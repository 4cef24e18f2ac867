//! The identity of the agent: its name, description, personality, rules and notes.

use crate::json;
use crate::text;
use vstd::prelude::*;

verus! {

/// Who the agent is.
#[derive(Debug, Clone)]
pub struct Identity {
    pub name: String,
    pub description: String,
    pub personality: Vec<String>,
    pub rules: Vec<String>,
    pub notes: Vec<String>,
}

/// An identity as plain texts.
#[verifier::ext_equal]
pub struct IdentityView {
    pub name: Seq<char>,
    pub description: Seq<char>,
    pub personality: Seq<Seq<char>>,
    pub rules: Seq<Seq<char>>,
    pub notes: Seq<Seq<char>>,
}

impl View for Identity {
    type V = IdentityView;

    open spec fn view(&self) -> IdentityView {
        IdentityView {
            name: self.name@,
            description: self.description@,
            personality: text::texts(self.personality@),
            rules: text::texts(self.rules@),
            notes: text::texts(self.notes@),
        }
    }
}

/// The part of an identity file that a line belongs to.
#[derive(Debug, Clone, Copy, PartialEq, Eq, Structural)]
pub enum Section {
    Top,
    Description,
    Personality,
    Rules,
    Notes,
}

/// An identity of which nothing is known.
pub open spec fn blank() -> IdentityView {
    IdentityView {
        name: Seq::empty(),
        description: Seq::empty(),
        personality: Seq::empty(),
        rules: Seq::empty(),
        notes: Seq::empty(),
    }
}

// ---------------------------------------------------------------------------
// Reading markdown
// ---------------------------------------------------------------------------

/// The section that a line opens, if it is a heading; the main heading opens none.
pub open spec fn heading(line: Seq<char>, current: Section) -> Option<Section> {
    if text::begins(line, "# Identity"@) {
        Some(current)
    } else if text::begins(line, "## Description"@) {
        Some(Section::Description)
    } else if text::begins(line, "## Personality"@) {
        Some(Section::Personality)
    } else if text::begins(line, "## Rules"@) {
        Some(Section::Rules)
    } else if text::begins(line, "## Notes"@) {
        Some(Section::Notes)
    } else {
        None
    }
}

/// The item in a line of a list: the line without its leading dashes.
pub open spec fn item_of(line: Seq<char>) -> Seq<char> {
    text::trimmed(text::without_leading(line, '-'))
}

/// A list with the item of a line, unless the item is empty.
pub open spec fn with_item(list: Seq<Seq<char>>, line: Seq<char>) -> Seq<Seq<char>> {
    if item_of(line).len() > 0 {
        list.push(item_of(line))
    } else {
        list
    }
}

/// What is known after one more line that is no heading and not empty.
pub open spec fn with_line(id: IdentityView, section: Section, line: Seq<char>) -> IdentityView {
    match section {
        Section::Top => if id.name.len() == 0 {
            IdentityView { name: line, ..id }
        } else {
            id
        },
        Section::Description => IdentityView { description: line, ..id },
        Section::Personality => IdentityView { personality: with_item(id.personality, line), ..id },
        Section::Rules => IdentityView { rules: with_item(id.rules, line), ..id },
        Section::Notes => IdentityView { notes: with_item(id.notes, line), ..id },
    }
}

/// What is known after one more line, and the section that the next one belongs to.
pub open spec fn after_line(
    state: (IdentityView, Section),
    line: Seq<char>,
) -> (IdentityView, Section) {
    let t = text::trimmed(line);
    match heading(t, state.1) {
        Some(section) => (state.0, section),
        None => if t.len() == 0 {
            state
        } else {
            (with_line(state.0, state.1, t), state.1)
        },
    }
}

/// What is known after all the lines.
pub open spec fn after_lines(lines: Seq<Seq<char>>) -> (IdentityView, Section)
    decreases lines.len(),
{
    if lines.len() == 0 {
        (blank(), Section::Top)
    } else {
        after_line(after_lines(lines.drop_last()), lines.last())
    }
}

/// The identity in a markdown text; without a name it is called `Mini-Agent`.
pub open spec fn read_markdown(content: Seq<char>) -> IdentityView {
    let id = after_lines(text::line_seq(content)).0;
    if id.name.len() == 0 {
        IdentityView { name: "Mini-Agent"@, ..id }
    } else {
        id
    }
}

// ---------------------------------------------------------------------------
// Writing
// ---------------------------------------------------------------------------

/// The items of a list, each behind a dash.
pub open spec fn dashed(items: Seq<Seq<char>>) -> Seq<Seq<char>> {
    Seq::new(items.len(), |i: int| "- "@ + items[i])
}

/// A part of the system prompt: a title and a list, unless the list is empty.
pub open spec fn prompt_part(title: Seq<char>, items: Seq<Seq<char>>) -> Seq<Seq<char>> {
    if items.len() > 0 {
        seq![title + text::joined(dashed(items), "\n"@)]
    } else {
        Seq::empty()
    }
}

/// The system prompt that speaks of an identity.
pub open spec fn system_prompt(id: IdentityView) -> Seq<char> {
    text::joined(
        seq!["You are "@ + id.name + ". "@ + id.description] + prompt_part(
            "Personality:\n"@,
            id.personality,
        ) + prompt_part("Rules:\n"@, id.rules) + prompt_part("Notes:\n"@, id.notes),
        "\n\n"@,
    )
}

/// The lines of a list in a markdown text, with an empty line behind them.
pub open spec fn list_lines(title: Seq<char>, items: Seq<Seq<char>>) -> Seq<Seq<char>> {
    if items.len() > 0 {
        seq![title] + dashed(items) + seq![Seq::empty()]
    } else {
        Seq::empty()
    }
}

/// The lines of the description in a markdown text, with an empty line behind them.
pub open spec fn description_lines(description: Seq<char>) -> Seq<Seq<char>> {
    if description.len() > 0 {
        seq!["## Description"@, description, Seq::empty()]
    } else {
        Seq::empty()
    }
}

/// The lines of the markdown text of an identity.
pub open spec fn markdown_lines(id: IdentityView) -> Seq<Seq<char>> {
    seq!["# Identity"@, id.name, Seq::empty()] + description_lines(id.description) + list_lines(
        "## Personality"@,
        id.personality,
    ) + list_lines("## Rules"@, id.rules) + list_lines("## Notes"@, id.notes)
}

/// The markdown text of an identity.
pub open spec fn markdown(id: IdentityView) -> Seq<char> {
    text::joined(markdown_lines(id), "\n"@)
}

fn push_lines(out: &mut Vec<String>, title: &str, items: &Vec<String>)
    ensures
        text::texts(final(out)@) == text::texts(old(out)@) + list_lines(
            title@,
            text::texts(items@),
        ),
{
    let ghost start = text::texts(out@);
    if items.len() == 0 {
        proof {
            assert(start + list_lines(title@, text::texts(items@)) =~= start);
        }
        return;
    }
    out.push(title.to_owned());
    let ghost body = dashed(text::texts(items@));
    assert(text::texts(out@) =~= start + seq![title@] + body.take(0));
    let mut i: usize = 0;
    while i < items.len()
        invariant
            i <= items@.len(),
            body == dashed(text::texts(items@)),
            text::texts(out@) == start + seq![title@] + body.take(i as int),
        decreases items@.len() - i,
    {
        let ghost before = text::texts(out@);
        let line: String = text::concat2("- ", items[i].as_str());
        out.push(line);
        proof {
            assert(line@ == body[i as int]);
            assert(text::texts(out@) =~= before.push(line@));
            assert(body.take(i + 1) =~= body.take(i as int).push(body[i as int]));
            assert(text::texts(out@) =~= start + seq![title@] + body.take(i + 1));
        }
        i = i + 1;
    }
    let ghost before = text::texts(out@);
    out.push(String::new());
    proof {
        assert(text::texts(out@) =~= before.push(Seq::empty()));
        assert(body.take(i as int) =~= body);
        assert(text::texts(out@) =~= start + list_lines(title@, text::texts(items@)));
    }
}

fn dash_all(items: &Vec<String>) -> (r: Vec<String>)
    ensures
        text::texts(r@) == dashed(text::texts(items@)),
{
    let mut out: Vec<String> = Vec::new();
    let ghost body = dashed(text::texts(items@));
    assert(text::texts(out@) =~= body.take(0));
    let mut i: usize = 0;
    while i < items.len()
        invariant
            i <= items@.len(),
            body == dashed(text::texts(items@)),
            text::texts(out@) == body.take(i as int),
        decreases items@.len() - i,
    {
        let ghost before = text::texts(out@);
        let line: String = text::concat2("- ", items[i].as_str());
        out.push(line);
        proof {
            assert(line@ == body[i as int]);
            assert(text::texts(out@) =~= before.push(line@));
            assert(body.take(i + 1) =~= body.take(i as int).push(body[i as int]));
        }
        i = i + 1;
    }
    assert(body.take(i as int) =~= body);
    out
}

fn push_part(out: &mut Vec<String>, title: &str, items: &Vec<String>)
    ensures
        text::texts(final(out)@) == text::texts(old(out)@) + prompt_part(
            title@,
            text::texts(items@),
        ),
{
    let ghost start = text::texts(out@);
    if items.len() > 0 {
        let list: String = text::join(&dash_all(items), "\n");
        out.push(text::concat2(title, list.as_str()));
    }
    assert(text::texts(out@) =~= start + prompt_part(title@, text::texts(items@)));
}

fn push_item(list: &mut Vec<String>, line: &str)
    ensures
        text::texts(final(list)@) == with_item(text::texts(old(list)@), line@),
{
    let item: &str = text::trim(text::strip_leading(line, '-'));
    if item.unicode_len() > 0 {
        let ghost before = text::texts(list@);
        list.push(item.to_owned());
        assert(text::texts(list@) =~= before.push(item@));
    }
}

fn heading_of(line: &str, current: Section) -> (r: Option<Section>)
    ensures
        r == heading(line@, current),
{
    if text::starts_with(line, "# Identity") {
        Some(current)
    } else if text::starts_with(line, "## Description") {
        Some(Section::Description)
    } else if text::starts_with(line, "## Personality") {
        Some(Section::Personality)
    } else if text::starts_with(line, "## Rules") {
        Some(Section::Rules)
    } else if text::starts_with(line, "## Notes") {
        Some(Section::Notes)
    } else {
        None
    }
}

impl Default for Identity {
    fn default() -> (r: Self)
        ensures
            r@ == blank(),
    {
        let r: Identity = Identity {
            name: String::new(),
            description: String::new(),
            personality: Vec::new(),
            rules: Vec::new(),
            notes: Vec::new(),
        };
        assert(r@ =~= blank());
        r
    }
}

impl Identity {
    fn take_line(&mut self, section: Section, line: &str)
        ensures
            final(self)@ == with_line(old(self)@, section, line@),
    {
        match section {
            Section::Top => {
                if self.name.as_str().unicode_len() == 0 {
                    self.name = line.to_owned();
                }
            },
            Section::Description => {
                self.description = line.to_owned();
            },
            Section::Personality => {
                push_item(&mut self.personality, line);
            },
            Section::Rules => {
                push_item(&mut self.rules, line);
            },
            Section::Notes => {
                push_item(&mut self.notes, line);
            },
        }
    }

    /// Whether a file with that extension holds an identity in JSON.
    pub fn reads_json(extension: Option<&str>) -> (r: bool)
        ensures
            r == (json::opt_str(extension) == Some("json"@)),
    {
        match extension {
            Some(e) => text::same(e, "json"),
            None => false,
        }
    }

    /// Reads an identity from a markdown text.
    pub fn from_markdown(content: &str) -> (r: Self)
        ensures
            r@ == read_markdown(content@),
    {
        let mut identity: Identity = Identity::default();
        let mut section: Section = Section::Top;
        let lines: Vec<String> = text::lines(content);
        let ghost all = text::texts(lines@);
        let mut i: usize = 0;
        assert(all.take(0) =~= Seq::<Seq<char>>::empty());
        while i < lines.len()
            invariant
                i <= lines@.len(),
                all == text::texts(lines@),
                (identity@, section) == after_lines(all.take(i as int)),
            decreases lines@.len() - i,
        {
            proof {
                assert(all.take(i + 1).drop_last() =~= all.take(i as int));
                assert(all.take(i + 1).last() == lines@[i as int]@);
            }
            let line: &str = text::trim(lines[i].as_str());
            match heading_of(line, section) {
                Some(opened) => {
                    section = opened;
                },
                None => {
                    if line.unicode_len() > 0 {
                        identity.take_line(section, line);
                    }
                },
            }
            i = i + 1;
        }
        assert(all.take(i as int) =~= all);
        if identity.name.as_str().unicode_len() == 0 {
            identity.name = "Mini-Agent".to_owned();
        }
        identity
    }

    /// The system prompt that speaks of the identity.
    pub fn to_system_prompt(&self) -> (r: String)
        ensures
            r@ == system_prompt(self@),
    {
        let mut parts: Vec<String> = Vec::new();
        parts.push(
            text::concat4("You are ", self.name.as_str(), ". ", self.description.as_str()),
        );
        assert(text::texts(parts@) =~= seq![
            "You are "@ + self@.name + ". "@ + self@.description,
        ]);
        push_part(&mut parts, "Personality:\n", &self.personality);
        push_part(&mut parts, "Rules:\n", &self.rules);
        push_part(&mut parts, "Notes:\n", &self.notes);
        text::join(&parts, "\n\n")
    }

    /// The identity as a markdown text.
    pub fn to_markdown(&self) -> (r: String)
        ensures
            r@ == markdown(self@),
    {
        let mut lines: Vec<String> = Vec::new();
        lines.push("# Identity".to_owned());
        lines.push(self.name.clone());
        lines.push(String::new());
        let ghost head = text::texts(lines@);
        assert(head =~= seq!["# Identity"@, self@.name, Seq::empty()]);
        if self.description.as_str().unicode_len() > 0 {
            lines.push("## Description".to_owned());
            lines.push(self.description.clone());
            lines.push(String::new());
        }
        assert(text::texts(lines@) =~= head + description_lines(self@.description));
        push_lines(&mut lines, "## Personality", &self.personality);
        push_lines(&mut lines, "## Rules", &self.rules);
        push_lines(&mut lines, "## Notes", &self.notes);
        text::join(&lines, "\n")
    }
}

/// The identity of an agent that has no file for it.
pub fn default_identity() -> (r: Identity)
    ensures
        r@ == (IdentityView {
            name: "Mini-Agent"@,
            description:
                "A helpful AI assistant with tool-calling capabilities and multi-layer memory."@,
            personality: seq![
                "Curious and eager to learn from every conversation"@,
                "Concise but thorough in explanations"@,
            ],
            rules: seq![
                "Use reasoning before tool calls when helpful"@,
                "Recall memories when relevant to the user's query"@,
            ],
            notes: seq![],
        }),
{
    let mut personality: Vec<String> = Vec::new();
    personality.push("Curious and eager to learn from every conversation".to_owned());
    personality.push("Concise but thorough in explanations".to_owned());
    let mut rules: Vec<String> = Vec::new();
    rules.push("Use reasoning before tool calls when helpful".to_owned());
    rules.push("Recall memories when relevant to the user's query".to_owned());
    let r: Identity = Identity {
        name: "Mini-Agent".to_owned(),
        description:
            "A helpful AI assistant with tool-calling capabilities and multi-layer memory.".to_owned(),
        personality,
        rules,
        notes: Vec::new(),
    };
    assert(r@.personality =~= seq![
        "Curious and eager to learn from every conversation"@,
        "Concise but thorough in explanations"@,
    ]);
    assert(r@.rules =~= seq![
        "Use reasoning before tool calls when helpful"@,
        "Recall memories when relevant to the user's query"@,
    ]);
    assert(r@.notes =~= seq![]);
    r
}

// ---------------------------------------------------------------------------
// Laws
// ---------------------------------------------------------------------------

/// The text can stand for itself in a line of an identity file: one trimmed line, not empty,
/// and no heading.
pub open spec fn plain(s: Seq<char>) -> bool {
    &&& text::is_line(s)
    &&& s.len() > 0
    &&& text::trimmed(s) == s
    &&& heading(s, Section::Top) is None
}

/// The text can be an item of a list: one trimmed line, not empty.
pub open spec fn plain_item(s: Seq<char>) -> bool {
    &&& text::is_line(s)
    &&& s.len() > 0
    &&& text::trimmed(s) == s
}

/// Every text of the list can be an item.
pub open spec fn plain_items(items: Seq<Seq<char>>) -> bool {
    forall|i: int| #![trigger items[i]] 0 <= i < items.len() ==> plain_item(items[i])
}

/// Every text of the identity can stand for itself in its place in the file.
pub open spec fn writable(id: IdentityView) -> bool {
    &&& plain(id.name)
    &&& id.description.len() > 0 ==> plain(id.description)
    &&& plain_items(id.personality)
    &&& plain_items(id.rules)
    &&& plain_items(id.notes)
}

spec fn with_items(id: IdentityView, section: Section, items: Seq<Seq<char>>) -> IdentityView {
    match section {
        Section::Personality => IdentityView { personality: id.personality + items, ..id },
        Section::Rules => IdentityView { rules: id.rules + items, ..id },
        Section::Notes => IdentityView { notes: id.notes + items, ..id },
        _ => id,
    }
}

spec fn is_title(title: Seq<char>, section: Section) -> bool {
    match section {
        Section::Personality => title == "## Personality"@,
        Section::Rules => title == "## Rules"@,
        Section::Notes => title == "## Notes"@,
        _ => false,
    }
}

proof fn lemma_after_push(a: Seq<Seq<char>>, line: Seq<char>)
    ensures
        after_lines(a.push(line)) == after_line(after_lines(a), line),
{
    assert(a.push(line).drop_last() =~= a);
}

proof fn lemma_empty_line(state: (IdentityView, Section))
    ensures
        after_line(state, Seq::empty()) == state,
{
    reveal_strlit("# Identity");
    reveal_strlit("## Description");
    reveal_strlit("## Personality");
    reveal_strlit("## Rules");
    reveal_strlit("## Notes");
    text::lemma_trimmed_is(Seq::empty());
}

proof fn lemma_title(title: Seq<char>, section: Section, current: Section)
    requires
        is_title(title, section),
    ensures
        text::trimmed(title) == title,
        heading(title, current) == Some(section),
        text::is_line(title),
{
    reveal_strlit("# Identity");
    reveal_strlit("## Description");
    reveal_strlit("## Personality");
    reveal_strlit("## Rules");
    reveal_strlit("## Notes");
    text::lemma_trimmed_is(title);
    text::lemma_not_begins(title, "# Identity"@, 1);
    text::lemma_not_begins(title, "## Description"@, 3);
    assert(title.subrange(0, title.len() as int) =~= title);
    if section != Section::Personality {
        text::lemma_not_begins(title, "## Personality"@, 3);
    }
    if section == Section::Notes {
        text::lemma_not_begins(title, "## Rules"@, 3);
    }
}

proof fn lemma_no_heading(s: Seq<char>, current: Section)
    requires
        s.len() > 0,
        s.first() == '-',
    ensures
        heading(s, current) is None,
{
    reveal_strlit("# Identity");
    reveal_strlit("## Description");
    reveal_strlit("## Personality");
    reveal_strlit("## Rules");
    reveal_strlit("## Notes");
    text::lemma_not_begins(s, "# Identity"@, 0);
    text::lemma_not_begins(s, "## Description"@, 0);
    text::lemma_not_begins(s, "## Personality"@, 0);
    text::lemma_not_begins(s, "## Rules"@, 0);
    text::lemma_not_begins(s, "## Notes"@, 0);
}

proof fn lemma_item_line(x: Seq<char>, current: Section)
    requires
        plain_item(x),
    ensures
        text::trimmed("- "@ + x) == "- "@ + x,
        heading("- "@ + x, current) is None,
        item_of("- "@ + x) == x,
        text::is_line("- "@ + x),
{
    reveal_strlit("- ");
    let s = "- "@ + x;
    assert(s.first() == '-');
    assert(s.last() == x.last());
    text::lemma_trimmed_is(x);
    text::lemma_trimmed_is(s);
    lemma_no_heading(s, current);
    let rest = s.drop_first();
    assert(rest.first() == ' ');
    assert(text::without_leading(rest, '-') == rest);
    assert(text::without_leading(s, '-') == rest);
    assert(rest.drop_first() =~= x);
    text::lemma_left_trimmed(x);
    assert(text::left_trimmed(rest) == text::left_trimmed(x));
}

proof fn lemma_items(
    a: Seq<Seq<char>>,
    id: IdentityView,
    current: Section,
    title: Seq<char>,
    section: Section,
    items: Seq<Seq<char>>,
    k: int,
)
    requires
        after_lines(a) == (id, current),
        is_title(title, section),
        plain_items(items),
        0 <= k <= items.len(),
    ensures
        after_lines(a + seq![title] + dashed(items).take(k)) == (
            with_items(id, section, items.take(k)),
            section,
        ),
    decreases k,
{
    let body = dashed(items);
    if k == 0 {
        lemma_title(title, section, current);
        assert(a + seq![title] + body.take(0) =~= a.push(title));
        lemma_after_push(a, title);
        assert(with_items(id, section, items.take(0)) =~= id);
    } else {
        lemma_items(a, id, current, title, section, items, k - 1);
        let before = a + seq![title] + body.take(k - 1);
        let line = body[k - 1];
        assert(a + seq![title] + body.take(k) =~= before.push(line));
        lemma_after_push(before, line);
        assert(plain_item(items[k - 1]));
        lemma_item_line(items[k - 1], section);
        let known = with_items(id, section, items.take(k - 1));
        assert(items.take(k) =~= items.take(k - 1).push(items[k - 1]));
        assert(with_line(known, section, line) =~= with_items(id, section, items.take(k)));
    }
}

proof fn lemma_list(
    a: Seq<Seq<char>>,
    id: IdentityView,
    title: Seq<char>,
    section: Section,
    items: Seq<Seq<char>>,
)
    requires
        after_lines(a).0 == id,
        is_title(title, section),
        plain_items(items),
    ensures
        after_lines(a + list_lines(title, items)).0 == with_items(id, section, items),
{
    if items.len() > 0 {
        let n = items.len() as int;
        lemma_items(a, id, after_lines(a).1, title, section, items, n);
        let before = a + seq![title] + dashed(items).take(n);
        assert(a + list_lines(title, items) =~= before.push(Seq::empty()));
        lemma_after_push(before, Seq::empty());
        lemma_empty_line(after_lines(before));
        assert(items.take(n) =~= items);
    } else {
        assert(a + list_lines(title, items) =~= a);
        assert(with_items(id, section, items) =~= id);
    }
}

proof fn lemma_head(id: IdentityView)
    requires
        writable(id),
    ensures
        after_lines(
            seq!["# Identity"@, id.name, Seq::empty()] + description_lines(id.description),
        ).0 == (IdentityView { name: id.name, description: id.description, ..blank() }),
{
    reveal_strlit("# Identity");
    reveal_strlit("## Description");
    reveal_strlit("## Personality");
    reveal_strlit("## Rules");
    reveal_strlit("## Notes");
    let none = Seq::<Seq<char>>::empty();
    let a1 = none.push("# Identity"@);
    lemma_after_push(none, "# Identity"@);
    text::lemma_trimmed_is("# Identity"@);
    assert("# Identity"@.subrange(0, 10) =~= "# Identity"@);
    assert(after_lines(a1) == (blank(), Section::Top));
    let a2 = a1.push(id.name);
    lemma_after_push(a1, id.name);
    assert(after_lines(a2) == (IdentityView { name: id.name, ..blank() }, Section::Top));
    let a3 = a2.push(Seq::empty());
    lemma_after_push(a2, Seq::empty());
    lemma_empty_line(after_lines(a2));
    assert(a3 =~= seq!["# Identity"@, id.name, Seq::empty()]);
    if id.description.len() > 0 {
        let title = "## Description"@;
        text::lemma_trimmed_is(title);
        text::lemma_not_begins(title, "# Identity"@, 1);
        assert(title.subrange(0, 14) =~= title);
        let a4 = a3.push(title);
        lemma_after_push(a3, title);
        let a5 = a4.push(id.description);
        lemma_after_push(a4, id.description);
        let a6 = a5.push(Seq::empty());
        lemma_after_push(a5, Seq::empty());
        lemma_empty_line(after_lines(a5));
        assert(a3 + description_lines(id.description) =~= a6);
    } else {
        assert(a3 + description_lines(id.description) =~= a3);
        assert(id.description =~= Seq::empty());
    }
}

proof fn lemma_list_is_lines(title: Seq<char>, section: Section, items: Seq<Seq<char>>)
    requires
        is_title(title, section),
        plain_items(items),
    ensures
        forall|j: int| #![trigger list_lines(title, items)[j]]
            0 <= j < list_lines(title, items).len() ==> text::is_line(list_lines(title, items)[j]),
        items.len() > 0 ==> list_lines(title, items).len() > 0 && list_lines(
            title,
            items,
        ).last().len() == 0,
{
    let lines = list_lines(title, items);
    lemma_title(title, section, section);
    assert forall|j: int| #![trigger lines[j]] 0 <= j < lines.len() implies text::is_line(
        lines[j],
    ) by {
        if 0 < j <= items.len() {
            assert(plain_item(items[j - 1]));
            lemma_item_line(items[j - 1], section);
            assert(lines[j] == "- "@ + items[j - 1]);
        }
    }
}

/// Reading back what was written of an identity gives the identity.
pub proof fn law_markdown_round_trip(id: IdentityView)
    requires
        writable(id),
    ensures
        read_markdown(markdown(id)) == id,
{
    let lines = markdown_lines(id);
    let a = seq!["# Identity"@, id.name, Seq::empty()] + description_lines(id.description);
    let p = list_lines("## Personality"@, id.personality);
    let r = list_lines("## Rules"@, id.rules);
    let n = list_lines("## Notes"@, id.notes);
    let named = IdentityView { name: id.name, description: id.description, ..blank() };
    lemma_head(id);
    lemma_list(a, named, "## Personality"@, Section::Personality, id.personality);
    let second = with_items(named, Section::Personality, id.personality);
    lemma_list(a + p, second, "## Rules"@, Section::Rules, id.rules);
    let third = with_items(second, Section::Rules, id.rules);
    lemma_list(a + p + r, third, "## Notes"@, Section::Notes, id.notes);
    assert(with_items(third, Section::Notes, id.notes) =~= id);
    assert(after_lines(lines).0 == id);

    lemma_list_is_lines("## Personality"@, Section::Personality, id.personality);
    lemma_list_is_lines("## Rules"@, Section::Rules, id.rules);
    lemma_list_is_lines("## Notes"@, Section::Notes, id.notes);
    reveal_strlit("# Identity");
    reveal_strlit("## Description");
    assert forall|j: int| #![trigger lines[j]] 0 <= j < lines.len() implies text::is_line(
        lines[j],
    ) by {
        if j < a.len() {
            assert(lines[j] == a[j]);
        } else if j < a.len() + p.len() {
            assert(lines[j] == p[j - a.len()]);
        } else if j < a.len() + p.len() + r.len() {
            assert(lines[j] == r[j - a.len() - p.len()]);
        } else {
            assert(lines[j] == n[j - a.len() - p.len() - r.len()]);
        }
    }
    assert(lines.last().len() == 0) by {
        if n.len() > 0 {
            assert(lines.last() == n.last());
        } else if r.len() > 0 {
            assert(lines.last() == r.last());
        } else if p.len() > 0 {
            assert(lines.last() == p.last());
        } else {
            assert(lines.last() == a.last());
        }
    }
    text::lemma_lines_of_joined(lines);
    assert(lines.drop_last().push(Seq::empty()) =~= lines) by {
        assert(lines.last() =~= Seq::empty());
    }
    lemma_after_push(lines.drop_last(), Seq::empty());
    lemma_empty_line(after_lines(lines.drop_last()));
}

/// The system prompt speaks of the whole identity: it begins with the name and the description, and
/// every trait, rule and note stands in it, in this order, each behind a dash and under its title.
pub proof fn law_prompt_speaks_of_everything(id: IdentityView, i: int, j: int, k: int)
    ensures
        ({
            let p = system_prompt(id);
            let start = "You are "@ + id.name + ". "@ + id.description;
            &&& text::begins(p, start)
            &&& 0 <= i < id.personality.len() ==> text::stands_before(
                p,
                "Personality:\n"@,
                "- "@ + id.personality[i],
            )
            &&& 0 <= j < id.rules.len() ==> text::stands_before(
                p,
                "Rules:\n"@,
                "- "@ + id.rules[j],
            )
            &&& 0 <= k < id.notes.len() ==> text::stands_before(
                p,
                "Notes:\n"@,
                "- "@ + id.notes[k],
            )
            &&& id.personality.len() == 0 && id.rules.len() == 0 && id.notes.len() == 0 ==> p
                == start
        }),
{
    let start = "You are "@ + id.name + ". "@ + id.description;
    let a = prompt_part("Personality:\n"@, id.personality);
    let b = prompt_part("Rules:\n"@, id.rules);
    let c = prompt_part("Notes:\n"@, id.notes);
    let parts = seq![start] + a + b + c;
    let p = text::joined(parts, "\n\n"@);
    if parts.len() >= 2 {
        text::lemma_joined_first(parts, "\n\n"@);
        text::law_parts_are_in_the_whole(
            start,
            "\n\n"@,
            text::joined(parts.drop_first(), "\n\n"@),
        );
    } else {
        assert(start.subrange(0, start.len() as int) =~= start);
    }
    if 0 <= i < id.personality.len() {
        assert(parts[1] == a[0]);
        lemma_item_in_prompt(parts, 1, "Personality:\n"@, id.personality, i);
    }
    if 0 <= j < id.rules.len() {
        let n = 1 + a.len() as int;
        assert(parts[n] == b[0]);
        lemma_item_in_prompt(parts, n, "Rules:\n"@, id.rules, j);
    }
    if 0 <= k < id.notes.len() {
        let n = 1 + (a + b).len() as int;
        assert(parts[n] == c[0]);
        lemma_item_in_prompt(parts, n, "Notes:\n"@, id.notes, k);
    }
}

proof fn lemma_item_in_prompt(
    parts: Seq<Seq<char>>,
    at: int,
    title: Seq<char>,
    items: Seq<Seq<char>>,
    i: int,
)
    requires
        0 <= at < parts.len(),
        0 <= i < items.len(),
        parts[at] == title + text::joined(dashed(items), "\n"@),
    ensures
        text::stands_before(text::joined(parts, "\n\n"@), title, "- "@ + items[i]),
{
    let list = text::joined(dashed(items), "\n"@);
    let item = "- "@ + items[i];
    assert(dashed(items)[i] == item);
    text::law_joined_holds_every_part(dashed(items), "\n"@, i);
    let x = choose|x: int| text::occurs_at(list, item, x);
    assert(list =~= list.take(x) + list.subrange(x, x + item.len()) + list.skip(x + item.len()));
    assert(parts[at] =~= Seq::<char>::empty() + title + list.take(x) + item + list.skip(
        x + item.len(),
    ));
    text::law_joined_holds_every_part(parts, "\n\n"@, at);
    text::lemma_stands_before_through(
        text::joined(parts, "\n\n"@),
        parts[at],
        title,
        item,
    );
}

/// A line of a list is one more item behind those before it; the first line at the top is the name,
/// and a line of the description is the description.
pub proof fn law_lines_belong_to_their_section(
    id: IdentityView,
    section: Section,
    line: Seq<char>,
)
    requires
        line.len() > 0,
        !text::is_space(line.first()),
        !text::is_space(line.last()),
        heading(line, section) is None,
    ensures
        ({
            let after = after_line((id, section), line);
            let item = "- "@ + line;
            let listed = after_line((id, section), item).0;
            &&& after.1 == section
            &&& section == Section::Top ==> after.0 == if id.name.len() == 0 {
                IdentityView { name: line, ..id }
            } else {
                id
            }
            &&& section == Section::Description ==> after.0 == (IdentityView {
                description: line,
                ..id
            })
            &&& section == Section::Personality ==> listed == (IdentityView {
                personality: id.personality.push(line),
                ..id
            })
            &&& section == Section::Rules ==> listed == (IdentityView {
                rules: id.rules.push(line),
                ..id
            })
            &&& section == Section::Notes ==> listed == (IdentityView {
                notes: id.notes.push(line),
                ..id
            })
        }),
{
    let item = "- "@ + line;
    text::lemma_trimmed_is(line);
    text::lemma_trimmed_is(item);
    reveal_strlit("- ");
    assert(item[0] == '-' && item.last() == line.last());
    lemma_no_heading(item, section);
    reveal_with_fuel(text::without_leading, 2);
    let rest = item.drop_first();
    assert(rest.first() == ' ');
    assert(text::without_leading(item, '-') == rest);
    assert(rest.drop_first() =~= line);
    assert(text::left_trimmed(rest) == text::left_trimmed(line));
}

/// An identity keeps the name that the text gives it; only where there is none it gets the usual
/// one, and everything else is as it was read.
pub proof fn law_only_a_missing_name_is_made_up(content: Seq<char>)
    ensures
        ({
            let read = after_lines(text::line_seq(content)).0;
            let id = read_markdown(content);
            &&& read.name.len() > 0 ==> id.name == read.name
            &&& read.name.len() == 0 ==> id.name == "Mini-Agent"@
            &&& id.description == read.description
            &&& id.personality == read.personality
            &&& id.rules == read.rules
            &&& id.notes == read.notes
        }),
{
}

/// Each heading opens its section and changes nothing else; reading begins with nothing known.
pub proof fn law_headings_open_sections(id: IdentityView, section: Section)
    ensures
        after_line((id, section), "## Description"@) == (id, Section::Description),
        after_line((id, section), "## Personality"@) == (id, Section::Personality),
        after_line((id, section), "## Rules"@) == (id, Section::Rules),
        after_line((id, section), "## Notes"@) == (id, Section::Notes),
        after_line((id, section), "# Identity"@) == (id, section),
        after_lines(Seq::empty()) == (blank(), Section::Top),
{
    lemma_heading_opens("## Description"@, section, Section::Description);
    lemma_heading_opens("## Personality"@, section, Section::Personality);
    lemma_heading_opens("## Rules"@, section, Section::Rules);
    lemma_heading_opens("## Notes"@, section, Section::Notes);
    lemma_heading_opens("# Identity"@, section, section);
}

proof fn lemma_heading_opens(title: Seq<char>, current: Section, opened: Section)
    requires
        (title == "## Description"@ && opened == Section::Description) || (title == "## Personality"@
            && opened == Section::Personality) || (title == "## Rules"@ && opened == Section::Rules)
            || (title == "## Notes"@ && opened == Section::Notes) || (title == "# Identity"@ && opened
            == current),
    ensures
        text::trimmed(title) == title,
        heading(title, current) == Some(opened),
{
    reveal_strlit("# Identity");
    reveal_strlit("## Description");
    reveal_strlit("## Personality");
    reveal_strlit("## Rules");
    reveal_strlit("## Notes");
    assert("# Identity"@[1] == ' ' && "## Description"@[1] == '#' && "## Personality"@[1] == '#'
        && "## Rules"@[1] == '#' && "## Notes"@[1] == '#');
    assert("## Description"@[3] == 'D' && "## Personality"@[3] == 'P' && "## Rules"@[3] == 'R'
        && "## Notes"@[3] == 'N');
    text::lemma_trimmed_is(title);
    assert(title.subrange(0, title.len() as int) =~= title);
    if title != "# Identity"@ {
        text::lemma_not_begins(title, "# Identity"@, 1);
        if title != "## Description"@ {
            text::lemma_not_begins(title, "## Description"@, 3);
        }
        if title != "## Personality"@ {
            text::lemma_not_begins(title, "## Personality"@, 3);
        }
        if title != "## Rules"@ {
            text::lemma_not_begins(title, "## Rules"@, 3);
        }
    }
}

} // verus!
