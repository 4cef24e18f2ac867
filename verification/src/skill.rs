//! Skills: the files that hold them, and the tools that manage them.

use crate::config;
use crate::json;
use crate::json::{Json, JsonView};
use crate::models;
use crate::models::{SkillManifest, ToolSchema, ToolSchemaView};
use crate::schema;
use crate::text;
use vstd::prelude::*;

verus! {

// ---------------------------------------------------------------------------
// Skill files
// ---------------------------------------------------------------------------

/// A skill file: its manifest between two rules, and its body.
pub open spec fn framed(manifest: Seq<char>, body: Seq<char>) -> Seq<char> {
    "---\n"@ + manifest + "---\n\n"@ + body
}

/// What a skill file comes apart to.
pub enum Parsed {
    /// The text of the manifest, and the body.
    Parts(Seq<char>, Seq<char>),
    /// There is no rule at the beginning.
    NoFrontmatter,
    /// There is no second rule.
    Unterminated,
}

/// What a skill file comes apart to. White space before the first rule and before the body does
/// not count.
pub open spec fn parsed_skill(content: Seq<char>) -> Parsed {
    let c = text::left_trimmed(content);
    if !text::begins(c, "---"@) {
        Parsed::NoFrontmatter
    } else {
        match text::found(c.skip(3), "---"@) {
            Some(end) => Parsed::Parts(
                c.subrange(3, end + 3),
                text::left_trimmed(c.skip(end + 6)),
            ),
            None => Parsed::Unterminated,
        }
    }
}

/// A skill file with another body; a file without a manifest becomes the body.
pub open spec fn updated(existing: Seq<char>, body: Seq<char>) -> Seq<char> {
    match text::found(existing, "\n---\n"@) {
        Some(i) => existing.take(i + 5) + "\n"@ + body,
        None => body,
    }
}

/// A skill file: its manifest between two rules, and its body.
pub fn frame_skill(manifest: &str, body: &str) -> (r: String)
    ensures
        r@ == framed(manifest@, body@),
{
    text::concat4("---\n", manifest, "---\n\n", body)
}

/// Takes a skill file apart into the text of its manifest and its body.
pub fn parse_skill_md(content: &str, path: &str) -> (r: Result<(String, String), String>)
    ensures
        match (r, parsed_skill(content@)) {
            (Ok(parts), Parsed::Parts(manifest, body)) => parts.0@ == manifest && parts.1@ == body,
            (Err(e), Parsed::NoFrontmatter) => e@ == "Missing frontmatter in "@ + path@,
            (Err(e), Parsed::Unterminated) => e@ == "Unterminated frontmatter in "@ + path@,
            _ => false,
        },
{
    let c: &str = text::trim_start(content);
    proof {
        reveal_strlit("---");
    }
    if !text::starts_with(c, "---") {
        return Err(text::concat2("Missing frontmatter in ", path));
    }
    let _size: usize = c.unicode_len();
    let rest: &str = text::rest_from(c, 3);
    proof {
        text::lemma_found_from(rest@, "---"@, 0);
    }
    match text::find(rest, "---") {
        Some(end) => {
            let manifest: String = c.substring_char(3, end + 3).to_owned();
            let body: String = text::trim_start(text::rest_from(c, end + 6)).to_owned();
            Ok((manifest, body))
        },
        None => Err(text::concat2("Unterminated frontmatter in ", path)),
    }
}

/// A skill file with another body.
pub fn update_content(existing: &str, body: &str) -> (r: String)
    ensures
        r@ == updated(existing@, body@),
{
    proof {
        reveal_strlit("\n---\n");
    }
    let _size: usize = existing.unicode_len();
    match text::find(existing, "\n---\n") {
        Some(i) => text::concat3(text::first_chars(existing, i + 5), "\n", body),
        None => body.to_owned(),
    }
}

/// A skill file with every `old_string` replaced; an error where there is none.
pub fn patch_content(content: &str, old_string: &str, new_string: &str, name: &str) -> (r: Result<
    String,
    String,
>)
    ensures
        match r {
            Ok(t) => text::includes(content@, old_string@) && t@ == text::replaced_all(
                content@,
                old_string@,
                new_string@,
            ),
            Err(e) => !text::includes(content@, old_string@) && e@
                == "old_string not found in skill '"@ + name@ + "'"@,
        },
{
    if !text::contains(content, old_string) {
        Err(text::concat3("old_string not found in skill '", name, "'"))
    } else {
        Ok(text::replace_all(content, old_string, new_string))
    }
}

/// A file that was found below the directory of skills: its name, and that of its directory.
#[derive(Debug)]
pub struct FoundFile {
    pub name: String,
    pub directory: Option<String>,
}

/// The first of the files, from `from` on, that is that of the skill.
pub open spec fn first_of_skill(files: Seq<FoundFile>, skill: Seq<char>, from: int) -> Option<int>
    decreases files.len() - from,
{
    if from < 0 || from >= files.len() {
        None
    } else if files[from].name@ == "SKILL.md"@ && models::opt_text(files[from].directory) == Some(
        skill,
    ) {
        Some(from)
    } else {
        first_of_skill(files, skill, from + 1)
    }
}

/// Which of the files is that of the skill: the first one with the right name in a directory of
/// that name.
pub fn pick_skill_file(files: &Vec<FoundFile>, skill: &str) -> (r: Option<usize>)
    ensures
        match r {
            Some(i) => first_of_skill(files@, skill@, 0) == Some(i as int) && i < files@.len(),
            None => first_of_skill(files@, skill@, 0) is None,
        },
{
    let mut i: usize = 0;
    while i < files.len()
        invariant
            i <= files@.len(),
            first_of_skill(files@, skill@, 0) == first_of_skill(files@, skill@, i as int),
        decreases files@.len() - i,
    {
        let ours: bool = match &files[i].directory {
            Some(d) => text::same(files[i].name.as_str(), "SKILL.md") && text::same(
                d.as_str(),
                skill,
            ),
            None => false,
        };
        if ours {
            return Some(i);
        }
        i = i + 1;
    }
    None
}

/// Where skills are kept.
#[derive(Debug, Clone)]
pub struct SkillManager {
    pub skills_dir: String,
}

impl SkillManager {
    /// Skills are kept in that directory.
    pub fn new(skills_dir: &str) -> (r: Self)
        ensures
            r.skills_dir@ == skills_dir@,
    {
        SkillManager { skills_dir: skills_dir.to_owned() }
    }

    /// The directory of a skill.
    pub fn skill_dir(&self, name: &str) -> (r: String)
        ensures
            r@ == config::below(self.skills_dir@, name@),
    {
        config::join_path(self.skills_dir.as_str(), name)
    }

    /// The file of a skill that lies directly in the directory.
    pub fn skill_path(&self, name: &str) -> (r: String)
        ensures
            r@ == config::below(config::below(self.skills_dir@, name@), "SKILL.md"@),
    {
        config::join_path(self.skill_dir(name).as_str(), "SKILL.md")
    }
}

/// The error that there is no such skill.
pub fn skill_not_found(name: &str) -> (r: String)
    ensures
        r@ == "Skill '"@ + name@ + "' not found"@,
{
    text::concat3("Skill '", name, "' not found")
}

// ---------------------------------------------------------------------------
// Texts about skills
// ---------------------------------------------------------------------------

/// The texts of a list of names and descriptions.
pub open spec fn skill_texts(v: Seq<(String, String)>) -> Seq<(Seq<char>, Seq<char>)> {
    Seq::new(v.len(), |i: int| (v[i].0@, v[i].1@))
}

/// A line for each skill.
pub open spec fn skill_lines(mark: Seq<char>, skills: Seq<(Seq<char>, Seq<char>)>) -> Seq<
    Seq<char>,
> {
    Seq::new(skills.len(), |i: int| mark + skills[i].0 + ": "@ + skills[i].1)
}

/// What the model is told of the skills.
pub open spec fn index_text(skills: Seq<(Seq<char>, Seq<char>)>) -> Seq<char> {
    if skills.len() == 0 {
        Seq::empty()
    } else {
        text::joined(
            seq![
                "## Available Skills"@,
                "Invoke a skill by name with a leading slash (e.g., /skill-name)."@,
                Seq::empty(),
            ] + skill_lines("- /"@, skills),
            "\n"@,
        )
    }
}

/// What the user is told of the skills.
pub open spec fn list_text(skills: Seq<(Seq<char>, Seq<char>)>) -> Seq<char> {
    if skills.len() == 0 {
        "No skills available. Use skill_manage to create one."@
    } else {
        text::joined(skill_lines("- "@, skills), "\n"@)
    }
}

fn push_skill_lines(out: &mut Vec<String>, mark: &str, skills: &Vec<(String, String)>)
    ensures
        text::texts(final(out)@) == text::texts(old(out)@) + skill_lines(
            mark@,
            skill_texts(skills@),
        ),
{
    let ghost start = text::texts(out@);
    let ghost body = skill_lines(mark@, skill_texts(skills@));
    assert(start + body.take(0) =~= start);
    let mut i: usize = 0;
    while i < skills.len()
        invariant
            i <= skills@.len(),
            body == skill_lines(mark@, skill_texts(skills@)),
            text::texts(out@) == start + body.take(i as int),
        decreases skills@.len() - i,
    {
        let ghost before = text::texts(out@);
        out.push(text::concat4(mark, skills[i].0.as_str(), ": ", skills[i].1.as_str()));
        proof {
            assert(text::texts(out@) =~= before.push(body[i as int]));
            assert(start + body.take(i + 1) =~= before.push(body[i as int]));
        }
        i = i + 1;
    }
    assert(body.take(i as int) =~= body);
}

/// What the model is told of the skills.
pub fn build_skill_index_prompt(skills: &Vec<(String, String)>) -> (r: String)
    ensures
        r@ == index_text(skill_texts(skills@)),
{
    if skills.len() == 0 {
        return String::new();
    }
    let mut lines: Vec<String> = Vec::new();
    lines.push("## Available Skills".to_owned());
    lines.push("Invoke a skill by name with a leading slash (e.g., /skill-name).".to_owned());
    lines.push(String::new());
    assert(text::texts(lines@) =~= seq![
        "## Available Skills"@,
        "Invoke a skill by name with a leading slash (e.g., /skill-name)."@,
        Seq::empty(),
    ]);
    push_skill_lines(&mut lines, "- /", skills);
    text::join(&lines, "\n")
}

/// What the user is told of the skills.
pub fn handle_skills_list(skills: &Vec<(String, String)>) -> (r: String)
    ensures
        r@ == list_text(skill_texts(skills@)),
{
    if skills.len() == 0 {
        return "No skills available. Use skill_manage to create one.".to_owned();
    }
    let mut lines: Vec<String> = Vec::new();
    assert(text::texts(lines@) =~= Seq::<Seq<char>>::empty());
    push_skill_lines(&mut lines, "- ", skills);
    assert(text::texts(lines@) =~= skill_lines("- "@, skill_texts(skills@)));
    text::join(&lines, "\n")
}

/// The message by which a skill is invoked.
pub open spec fn invocation(
    name: Seq<char>,
    body: Seq<char>,
    directory: Seq<char>,
    instruction: Seq<char>,
) -> Seq<char> {
    let start = "[IMPORTANT: The user has invoked the \""@ + name + "\" skill]\n\n"@ + body
        + "\n\n[Skill directory: "@ + directory + "]\n"@;
    if instruction.len() > 0 {
        start + "\n\n[User instruction: "@ + instruction + "]\n"@
    } else {
        start
    }
}

/// The message by which a skill is invoked.
pub fn invoke_skill(name: &str, body: &str, directory: &str, user_instruction: &str) -> (r: String)
    ensures
        r@ == invocation(name@, body@, directory@, user_instruction@),
{
    let mut message: String = text::concat4(
        "[IMPORTANT: The user has invoked the \"",
        name,
        "\" skill]\n\n",
        body,
    );
    message.append("\n\n[Skill directory: ");
    message.append(directory);
    message.append("]\n");
    if user_instruction.unicode_len() > 0 {
        message.append("\n\n[User instruction: ");
        message.append(user_instruction);
        message.append("]\n");
    }
    message
}

// ---------------------------------------------------------------------------
// The tools
// ---------------------------------------------------------------------------

/// What is to be done about a skill.
#[derive(Debug)]
pub enum SkillAction {
    Create { name: String, description: String, content: String },
    Update { name: String, content: String },
    Patch { name: String, old_string: String, new_string: String },
    Delete { name: String },
}

/// What is to be done about a skill, as plain texts, or the text of an error.
pub enum SkillRequest {
    Create(Seq<char>, Seq<char>, Seq<char>),
    Update(Seq<char>, Seq<char>),
    Patch(Seq<char>, Seq<char>, Seq<char>),
    Delete(Seq<char>),
    Refused(Seq<char>),
}

/// What a result asks for.
pub open spec fn request_in(r: Result<SkillAction, String>) -> SkillRequest {
    match r {
        Ok(SkillAction::Create { name, description, content }) => SkillRequest::Create(
            name@,
            description@,
            content@,
        ),
        Ok(SkillAction::Update { name, content }) => SkillRequest::Update(name@, content@),
        Ok(SkillAction::Patch { name, old_string, new_string }) => SkillRequest::Patch(
            name@,
            old_string@,
            new_string@,
        ),
        Ok(SkillAction::Delete { name }) => SkillRequest::Delete(name@),
        Err(e) => SkillRequest::Refused(e@),
    }
}

/// The text of a member, empty where there is none.
pub open spec fn text_or_blank(args: JsonView, key: Seq<char>) -> Seq<char> {
    models::text_or_empty(json::text_member(args, key))
}

/// What the arguments of the tool ask for.
pub open spec fn requested(args: JsonView) -> SkillRequest {
    match (json::text_member(args, "action"@), json::text_member(args, "name"@)) {
        (None, _) => SkillRequest::Refused("Missing action"@),
        (Some(_), None) => SkillRequest::Refused("Missing name"@),
        (Some(action), Some(name)) => if action == "create"@ {
            match json::text_member(args, "description"@) {
                Some(description) => SkillRequest::Create(
                    name,
                    description,
                    text_or_blank(args, "content"@),
                ),
                None => SkillRequest::Refused("Missing description for create"@),
            }
        } else if action == "update"@ {
            SkillRequest::Update(name, text_or_blank(args, "content"@))
        } else if action == "patch"@ {
            match (
                json::text_member(args, "old_string"@),
                json::text_member(args, "new_string"@),
            ) {
                (None, _) => SkillRequest::Refused("Missing old_string"@),
                (Some(_), None) => SkillRequest::Refused("Missing new_string"@),
                (Some(o), Some(n)) => SkillRequest::Patch(name, o, n),
            }
        } else if action == "delete"@ {
            SkillRequest::Delete(name)
        } else {
            SkillRequest::Refused("Unknown action: "@ + action)
        },
    }
}

proof fn lemma_actions_differ()
    ensures
        "create"@ != "update"@,
        "create"@ != "patch"@,
        "create"@ != "delete"@,
        "update"@ != "patch"@,
        "update"@ != "delete"@,
        "patch"@ != "delete"@,
{
    reveal_strlit("create");
    reveal_strlit("update");
    reveal_strlit("patch");
    reveal_strlit("delete");
    assert("create"@[0] == 'c' && "update"@[0] == 'u' && "patch"@[0] == 'p' && "delete"@[0]
        == 'd');
}

fn blank_or(args: &Json, key: &str) -> (r: String)
    ensures
        r@ == text_or_blank(args@, key@),
{
    match args.get_str(key) {
        Some(s) => s.to_owned(),
        None => String::new(),
    }
}

/// What the arguments of the tool ask for.
pub fn handle_skill_manage(args: &Json) -> (r: Result<SkillAction, String>)
    ensures
        request_in(r) == requested(args@),
{
    proof {
        lemma_actions_differ();
    }
    let action: String = match args.get_str("action") {
        Some(a) => a.to_owned(),
        None => {
            return Err("Missing action".to_owned());
        },
    };
    let name: String = match args.get_str("name") {
        Some(n) => n.to_owned(),
        None => {
            return Err("Missing name".to_owned());
        },
    };
    if text::same(action.as_str(), "create") {
        match args.get_str("description") {
            Some(d) => Ok(
                SkillAction::Create {
                    name,
                    description: d.to_owned(),
                    content: blank_or(args, "content"),
                },
            ),
            None => Err("Missing description for create".to_owned()),
        }
    } else if text::same(action.as_str(), "update") {
        Ok(SkillAction::Update { name, content: blank_or(args, "content") })
    } else if text::same(action.as_str(), "patch") {
        match args.get_str("old_string") {
            Some(o) => match args.get_str("new_string") {
                Some(n) => Ok(
                    SkillAction::Patch {
                        name,
                        old_string: o.to_owned(),
                        new_string: n.to_owned(),
                    },
                ),
                None => Err("Missing new_string".to_owned()),
            },
            None => Err("Missing old_string".to_owned()),
        }
    } else if text::same(action.as_str(), "delete") {
        Ok(SkillAction::Delete { name })
    } else {
        Err(text::concat2("Unknown action: ", action.as_str()))
    }
}

/// What the tool answers when it has done what it was asked for; the path is that of the file.
pub fn done_text(action: &SkillAction, path: &str) -> (r: String)
    ensures
        r@ == match *action {
            SkillAction::Create { name, .. } => "Created skill '"@ + name@ + "' at "@ + path@,
            SkillAction::Update { name, .. } => "Updated skill '"@ + name@ + "' at "@ + path@,
            SkillAction::Patch { name, .. } => "Patched skill '"@ + name@ + "' at "@ + path@,
            SkillAction::Delete { name } => "Deleted skill '"@ + name@ + "'"@,
        },
{
    match action {
        SkillAction::Create { name, .. } => text::concat4(
            "Created skill '",
            name.as_str(),
            "' at ",
            path,
        ),
        SkillAction::Update { name, .. } => text::concat4(
            "Updated skill '",
            name.as_str(),
            "' at ",
            path,
        ),
        SkillAction::Patch { name, .. } => text::concat4(
            "Patched skill '",
            name.as_str(),
            "' at ",
            path,
        ),
        SkillAction::Delete { name } => text::concat3("Deleted skill '", name.as_str(), "'"),
    }
}

/// The skill that the arguments of the tool ask to see.
pub fn handle_skill_view(args: &Json) -> (r: Result<String, String>)
    ensures
        match (r, json::text_member(args@, "name"@)) {
            (Ok(n), Some(name)) => n@ == name,
            (Err(e), None) => e@ == "Missing name"@,
            _ => false,
        },
{
    match args.get_str("name") {
        Some(n) => Ok(n.to_owned()),
        None => Err("Missing name".to_owned()),
    }
}

/// The manifest of a skill that is created at that time.
pub fn new_manifest(name: &str, description: &str, now: &str) -> (r: SkillManifest)
    ensures
        r.name@ == name@,
        r.description@ == description@,
        r.version@ == "1.0.0"@,
        r.author@ == "mini-agent"@,
        r.tags@.len() == 0,
        r.triggers@.len() == 0,
        r.system_prompt_patch is None,
        r.mcp_server is None,
        models::opt_text(r.created_at) == Some(now@),
        models::opt_text(r.updated_at) == Some(now@),
        r.usage_count == 0,
{
    SkillManifest {
        name: name.to_owned(),
        description: description.to_owned(),
        version: "1.0.0".to_owned(),
        author: "mini-agent".to_owned(),
        tags: Vec::new(),
        triggers: Vec::new(),
        system_prompt_patch: None,
        mcp_server: None,
        created_at: Some(now.to_owned()),
        updated_at: Some(now.to_owned()),
        usage_count: 0,
    }
}

/// The schema is made of these parts.
pub open spec fn is_schema(
    s: ToolSchema,
    name: Seq<char>,
    description: Seq<char>,
    parameters: JsonView,
) -> bool {
    s@ == ToolSchemaView { name, description, parameters }
}

/// A schema made of these parts.
pub fn schema(name: &str, description: &str, parameters: Json) -> (r: ToolSchema)
    ensures
        is_schema(r, name@, description@, parameters@),
{
    ToolSchema { name: name.to_owned(), description: description.to_owned(), parameters }
}

/// The parameters of the tool that changes skills.
pub open spec fn manage_parameters() -> JsonView {
    schema::object_of(
        seq![
            ("action"@, schema::one_of(seq!["create"@, "update"@, "patch"@, "delete"@])),
            ("name"@, schema::described("Skill name (lowercase, kebab-case)"@)),
            ("description"@, schema::described("Short description (required for create)"@)),
            ("content"@, schema::described("Full SKILL.md content (for create/update)"@)),
            ("old_string"@, schema::described("Text to replace (for patch)"@)),
            ("new_string"@, schema::described("Replacement text (for patch)"@)),
        ],
        seq!["action"@, "name"@],
    )
}

fn make_manage_parameters() -> (r: Json)
    ensures
        r@ == manage_parameters(),
{
    let mut props: Vec<(String, Json)> = Vec::new();
    let choices: Vec<&str> = vec!["create", "update", "patch", "delete"];
    assert(schema::strs(choices@) =~= seq!["create"@, "update"@, "patch"@, "delete"@]);
    props.push(("action".to_owned(), schema::make_one_of(choices)));
    props.push(("name".to_owned(), schema::make_described("Skill name (lowercase, kebab-case)")));
    props.push(
        (
            "description".to_owned(),
            schema::make_described("Short description (required for create)"),
        ),
    );
    props.push(
        (
            "content".to_owned(),
            schema::make_described("Full SKILL.md content (for create/update)"),
        ),
    );
    props.push(("old_string".to_owned(), schema::make_described("Text to replace (for patch)")));
    props.push(("new_string".to_owned(), schema::make_described("Replacement text (for patch)")));
    let required: Vec<&str> = vec!["action", "name"];
    proof {
        assert(schema::strs(required@) =~= seq!["action"@, "name"@]);
        let all = manage_parameters()->Object_0[1].1->Object_0;
        assert(json::members(props@) =~= all);
    }
    schema::make_object(props, required)
}

/// The parameters of the tool that lists skills: there are none.
pub open spec fn list_parameters() -> JsonView {
    schema::object_of(
        Seq::empty(),
        Seq::empty(),
    )
}

fn make_list_parameters() -> (r: Json)
    ensures
        r@ == list_parameters(),
{
    let props: Vec<(String, Json)> = Vec::new();
    let required: Vec<&str> = Vec::new();
    proof {
        assert(schema::strs(required@) =~= Seq::<Seq<char>>::empty());
        assert(json::members(props@) =~= Seq::<(Seq<char>, JsonView)>::empty());
    }
    schema::make_object(props, required)
}

/// The parameters of the tool that shows a skill.
pub open spec fn view_parameters() -> JsonView {
    schema::object_of(
        seq![
            ("name"@, schema::described("Name of the skill to view"@)),
        ],
        seq!["name"@],
    )
}

fn make_view_parameters() -> (r: Json)
    ensures
        r@ == view_parameters(),
{
    let mut props: Vec<(String, Json)> = Vec::new();
    props.push(("name".to_owned(), schema::make_described("Name of the skill to view")));
    let required: Vec<&str> = vec!["name"];
    proof {
        assert(schema::strs(required@) =~= seq!["name"@]);
        let all = view_parameters()->Object_0[1].1->Object_0;
        assert(json::members(props@) =~= all);
    }
    schema::make_object(props, required)
}

/// The tools that manage skills.
pub fn get_skill_tools() -> (r: Vec<ToolSchema>)
    ensures
        r@.len() == 3,
        is_schema(
            r@[0],
            "skill_manage"@,
            "Create, update, patch, or delete a skill. Actions: create, update, patch, delete."@,
            manage_parameters(),
        ),
        is_schema(
            r@[1],
            "skills_list"@,
            "List all available skills with their descriptions."@,
            list_parameters(),
        ),
        is_schema(
            r@[2],
            "skill_view"@,
            "View the full content of a specific skill."@,
            view_parameters(),
        ),
{
    let mut out: Vec<ToolSchema> = Vec::new();
    out.push(
        schema(
            "skill_manage",
            "Create, update, patch, or delete a skill. Actions: create, update, patch, delete.",
            make_manage_parameters(),
        ),
    );
    out.push(
        schema(
            "skills_list",
            "List all available skills with their descriptions.",
            make_list_parameters(),
        ),
    );
    out.push(
        schema(
            "skill_view",
            "View the full content of a specific skill.",
            make_view_parameters(),
        ),
    );
    out
}

// ---------------------------------------------------------------------------
// Laws
// ---------------------------------------------------------------------------

/// The rule behind the manifest is the first one that the reader of a file finds.
pub open spec fn ends_at_rule(manifest: Seq<char>) -> bool {
    text::found(manifest + "---"@, "---"@) == Some(manifest.len() as int)
}

/// The rule behind the manifest is the first one in a line of its own.
pub open spec fn ends_at_rule_line(manifest: Seq<char>) -> bool {
    text::found("\n"@ + manifest + "---\n"@, "\n---\n"@) == Some(manifest.len() as int)
}

/// Reading back a skill file gives the manifest and the body that it was made of, the body
/// without white space before it.
pub proof fn law_skill_file_round_trip(manifest: Seq<char>, body: Seq<char>)
    requires
        ends_at_rule(manifest),
    ensures
        parsed_skill(framed(manifest, body)) == Parsed::Parts(
            "\n"@ + manifest,
            text::left_trimmed(body),
        ),
{
    reveal_strlit("---");
    reveal_strlit("---\n");
    reveal_strlit("---\n\n");
    reveal_strlit("\n");
    let c = framed(manifest, body);
    let n = manifest.len() as int;
    assert(c[0] == '-');
    text::lemma_left_trimmed(c);
    assert(text::left_trimmed(c) == c);
    assert(c.subrange(0, 3) =~= "---"@);
    let rest = c.skip(3);
    let tail = seq!['\n', '\n'] + body;
    let inner = manifest + "---"@ + tail;
    text::lemma_found_in_front(manifest, "---"@, tail);
    assert(rest =~= "\n"@ + inner);
    text::lemma_found_shift("\n"@, inner, "---"@, 0);
    assert(rest.subrange(0, 3)[0] == '\n');
    assert(text::found(rest, "---"@) == Some(n + 1));
    assert(c.subrange(3, n + 4) =~= "\n"@ + manifest);
    let after = c.skip(n + 7);
    assert(after =~= tail);
    assert(after.drop_first() =~= seq!['\n'] + body);
    assert(after.drop_first().drop_first() =~= body);
    assert(text::left_trimmed(after) == text::left_trimmed(after.drop_first()));
    assert(text::left_trimmed(after.drop_first()) == text::left_trimmed(body));
}

/// Giving a skill file another body keeps its manifest: the file is the one that would have been
/// made of the manifest and that body.
pub proof fn law_update_keeps_manifest(manifest: Seq<char>, body: Seq<char>, new_body: Seq<char>)
    requires
        ends_at_rule_line(manifest),
    ensures
        updated(framed(manifest, body), new_body) == framed(manifest, new_body),
{
    reveal_strlit("---");
    reveal_strlit("---\n");
    reveal_strlit("---\n\n");
    reveal_strlit("\n---\n");
    reveal_strlit("\n");
    let c = framed(manifest, body);
    let n = manifest.len() as int;
    let p = "\n---\n"@;
    let head = "\n"@ + manifest + "---\n"@;
    text::lemma_found_from(head, p, 0);
    let front = head.take(n);
    assert(front + p =~= head);
    let tail = "\n"@ + body;
    text::lemma_found_in_front(front, p, tail);
    assert(c =~= "---"@ + (head + tail));
    text::lemma_found_shift("---"@, head + tail, p, 0);
    assert forall|j: int| 0 <= j < n + 3 implies !text::occurs_at(c, p, j) by {
        if j < 3 {
            assert(c[j] == '-');
            assert(j + 5 <= c.len() ==> c.subrange(j, j + 5)[0] == '-');
        } else {
            text::lemma_found_from(c, p, 3);
        }
    }
    text::lemma_found_from(c, p, 3);
    text::lemma_found_is(c, p, 0, n + 3);
    assert(c.take(n + 8) + "\n"@ + new_body =~= framed(manifest, new_body));
}

/// Replacing a text by itself changes nothing.
pub proof fn law_patch_with_itself_changes_nothing(content: Seq<char>, old_string: Seq<char>)
    ensures
        text::replaced_all(content, old_string, old_string) == content,
{
    text::lemma_replaced_by_itself(content, old_string);
}

/// Every skill stands in both lists, in order, with its name and its description; the model sees
/// the names behind a slash.
pub proof fn law_every_skill_is_listed(skills: Seq<(Seq<char>, Seq<char>)>, i: int, j: int)
    requires
        0 <= i < skills.len(),
    ensures
        ({
            let x = skills[i].0 + ": "@ + skills[i].1;
            let y = skills[j].0 + ": "@ + skills[j].1;
            &&& text::includes(index_text(skills), "- /"@ + x)
            &&& text::includes(list_text(skills), "- "@ + x)
            &&& i < j < skills.len() ==> text::stands_before(
                index_text(skills),
                "- /"@ + x,
                "- /"@ + y,
            )
            &&& i < j < skills.len() ==> text::stands_before(
                list_text(skills),
                "- "@ + x,
                "- "@ + y,
            )
        }),
        index_text(Seq::empty()).len() == 0,
{
    let heads = seq![
        "## Available Skills"@,
        "Invoke a skill by name with a leading slash (e.g., /skill-name)."@,
        Seq::empty(),
    ];
    let told = heads + skill_lines("- /"@, skills);
    let listed = skill_lines("- "@, skills);
    assert(told[i + 3] == skill_lines("- /"@, skills)[i]);
    assert(told[i + 3] =~= "- /"@ + (skills[i].0 + ": "@ + skills[i].1));
    assert(listed[i] =~= "- "@ + (skills[i].0 + ": "@ + skills[i].1));
    text::law_joined_holds_every_part(told, "\n"@, i + 3);
    text::law_joined_holds_every_part(listed, "\n"@, i);
    if i < j < skills.len() {
        assert(told[j + 3] == skill_lines("- /"@, skills)[j]);
        assert(told[j + 3] =~= "- /"@ + (skills[j].0 + ": "@ + skills[j].1));
        assert(listed[j] =~= "- "@ + (skills[j].0 + ": "@ + skills[j].1));
        text::law_joined_keeps_order(told, "\n"@, i + 3, j + 3);
        text::law_joined_keeps_order(listed, "\n"@, i, j);
    }
}

/// Who invokes a skill hands everything on: the name, the whole body and the directory stand in the
/// message in this order, and the instruction behind them if there is one.
pub proof fn law_invocation_holds_everything(
    name: Seq<char>,
    body: Seq<char>,
    directory: Seq<char>,
    instruction: Seq<char>,
)
    ensures
        ({
            let m = invocation(name, body, directory, instruction);
            &&& text::stands_before(m, name, body)
            &&& text::stands_before(m, body, "[Skill directory: "@ + directory + "]"@)
            &&& instruction.len() > 0 ==> text::stands_before(
                m,
                directory,
                "[User instruction: "@ + instruction + "]"@,
            )
            &&& instruction.len() == 0 ==> text::finishes(m, directory + "]\n"@)
        }),
{
    reveal_strlit("]\n");
    reveal_strlit("]");
    reveal_strlit("\n\n[Skill directory: ");
    reveal_strlit("[Skill directory: ");
    reveal_strlit("\n\n[User instruction: ");
    reveal_strlit("[User instruction: ");
    let feed = seq!['\n'];
    let gap = seq!['\n', '\n'];
    assert("]\n"@ =~= "]"@ + feed);
    assert("\n\n[Skill directory: "@ =~= gap + "[Skill directory: "@);
    assert("\n\n[User instruction: "@ =~= gap + "[User instruction: "@);
    let head = "[IMPORTANT: The user has invoked the \""@;
    let to_body = "\" skill]\n\n"@;
    let place = "[Skill directory: "@ + directory + "]"@;
    let wish = "[User instruction: "@ + instruction + "]"@;
    let m = invocation(name, body, directory, instruction);
    let start = head + name + to_body + body + gap + place + feed;
    let tail = if instruction.len() > 0 {
        gap + wish + feed
    } else {
        Seq::empty()
    };
    assert(m =~= start + tail);
    assert(m =~= head + name + to_body + body + (gap + place + feed + tail));
    assert(m =~= (head + name + to_body) + body + gap + place + (feed + tail));
    if instruction.len() > 0 {
        assert(m =~= (head + name + to_body + body + gap + "[Skill directory: "@) + directory + (
        "]"@ + feed + gap) + wish + feed);
    } else {
        let front = head + name + to_body + body + "\n\n[Skill directory: "@;
        text::law_parts_are_in_the_whole(front, directory, "]\n"@);
        assert(m =~= front + directory + "]\n"@);
    }
}

/// The file that is picked for a skill has the right name and lies in the directory of the skill,
/// and no file before it does; where none is picked there is none.
pub proof fn law_first_file_is_picked(files: Seq<FoundFile>, skill: Seq<char>, from: int, j: int)
    requires
        0 <= from <= j,
    ensures
        match first_of_skill(files, skill, from) {
            Some(i) => {
                &&& from <= i < files.len()
                &&& files[i].name@ == "SKILL.md"@
                &&& models::opt_text(files[i].directory) == Some(skill)
                &&& j < i ==> files[j].name@ != "SKILL.md"@ || models::opt_text(files[j].directory)
                    != Some(skill)
            },
            None => j < files.len() ==> files[j].name@ != "SKILL.md"@ || models::opt_text(
                files[j].directory,
            ) != Some(skill),
        },
    decreases files.len() - from,
{
    if from < files.len() {
        if from < j {
            law_first_file_is_picked(files, skill, from + 1, j);
        } else {
            law_first_file_is_picked(files, skill, from + 1, j + 1);
        }
    }
}

/// A skill file with another body ends with that body and begins as it did up to its rule.
pub proof fn law_update_ends_with_the_body(existing: Seq<char>, body: Seq<char>)
    ensures
        text::finishes(updated(existing, body), body),
        !text::includes(existing, "\n---\n"@) ==> updated(existing, body) == body,
{
    let u = updated(existing, body);
    assert(u.subrange(u.len() - body.len(), u.len() as int) =~= body);
    text::lemma_found_from(existing, "\n---\n"@, 0);
    match text::found(existing, "\n---\n"@) {
        Some(i) => {
            assert(text::occurs_at(existing, "\n---\n"@, i));
        },
        None => {},
    }
}

/// A request names the skill and what is to become of it exactly as the arguments do.
pub proof fn law_requests_are_taken_at_their_word(args: JsonView)
    ensures
        ({
            let name = json::text_member(args, "name"@);
            let action = json::text_member(args, "action"@);
            let description = json::text_member(args, "description"@);
            let content = json::text_member(args, "content"@);
            let o = json::text_member(args, "old_string"@);
            let n = json::text_member(args, "new_string"@);
            &&& action is None || name is None ==> requested(args) is Refused
            &&& action == Some("create"@) && name is Some && description is Some && content is Some
                ==> requested(args) == SkillRequest::Create(name->0, description->0, content->0)
            &&& action == Some("create"@) && description is None ==> requested(args) is Refused
            &&& action == Some("update"@) && name is Some && content is Some ==> requested(args)
                == SkillRequest::Update(name->0, content->0)
            &&& action == Some("patch"@) && name is Some && o is Some && n is Some ==> requested(
                args,
            ) == SkillRequest::Patch(name->0, o->0, n->0)
            &&& action == Some("patch"@) && (o is None || n is None) ==> requested(args) is Refused
            &&& action == Some("delete"@) && name is Some ==> requested(args)
                == SkillRequest::Delete(name->0)
            &&& action is Some && action != Some("create"@) && action != Some("update"@) && action
                != Some("patch"@) && action != Some("delete"@) ==> requested(args) is Refused
        }),
{
    lemma_actions_differ();
}

} // verus!
