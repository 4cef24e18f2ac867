use mini_agent::identity::{default_identity, Identity};
use mini_agent::json::{parse, render};
use mini_agent::skill::{
    build_skill_index_prompt, done_text, frame_skill, get_skill_tools, handle_skill_manage,
    handle_skill_view, handle_skills_list, invoke_skill, new_manifest, parse_skill_md, patch_content,
    pick_skill_file, skill_not_found, update_content, FoundFile, SkillAction, SkillManager,
};

const TEXT: &str = "# Identity\nMini-Agent\n\n## Description\nA helpful AI assistant that learns from every \
conversation.\n\n## Personality\n- Curious and thoughtful\n- Concise but thorough\n\n## Rules\n- Always cite \
sources when recalling memories\n- Ask clarifying questions when uncertain\n\n## Notes\n- The user prefers \
short answers\n";

#[test]
fn an_identity_is_read() {
    let id = Identity::from_markdown(TEXT);
    assert_eq!(id.name, "Mini-Agent");
    assert_eq!(id.description, "A helpful AI assistant that learns from every conversation.");
    assert_eq!(id.personality, vec!["Curious and thoughtful", "Concise but thorough"]);
    assert_eq!(id.rules.len(), 2);
    assert_eq!(id.notes, vec!["The user prefers short answers"]);
}

#[test]
fn an_identity_survives_writing_and_reading() {
    let id = Identity::from_markdown(TEXT);
    assert_eq!(id.to_markdown(), TEXT);
    let d = default_identity();
    let again = Identity::from_markdown(&d.to_markdown());
    assert_eq!(again.name, d.name);
    assert_eq!(again.personality, d.personality);
    assert_eq!(again.rules, d.rules);
    assert_eq!(again.notes, d.notes);
    let mut dashed = default_identity();
    dashed.rules = vec!["-x".to_string()];
    assert_eq!(Identity::from_markdown(&dashed.to_markdown()).rules, vec!["-x"]);
}

#[test]
fn an_empty_file_gives_the_usual_name() {
    let id = Identity::from_markdown("");
    assert_eq!(id.name, "Mini-Agent");
    assert_eq!(id.description, "");
    assert_eq!(Identity::default().name, "");
    let odd = Identity::from_markdown("Bot\nignored\n## Rules\n---\n--- x");
    assert_eq!(odd.name, "Bot");
    assert_eq!(odd.rules, vec!["x"]);
}

#[test]
fn the_prompt_speaks_of_the_identity() {
    let mut id = Identity::from_markdown("Bot");
    id.description = "Helps.".to_string();
    assert_eq!(id.to_system_prompt(), "You are Bot. Helps.");
    id.rules = vec!["a".to_string(), "b".to_string()];
    assert_eq!(id.to_system_prompt(), "You are Bot. Helps.\n\nRules:\n- a\n- b");
    assert!(Identity::reads_json(Some("json")));
    assert!(!Identity::reads_json(Some("md")));
    assert!(!Identity::reads_json(None));
}

#[test]
fn a_skill_file_comes_apart() {
    let file = frame_skill("name = \"x\"\n", "  Do it.");
    assert_eq!(file, "---\nname = \"x\"\n---\n\n  Do it.");
    assert_eq!(
        parse_skill_md(&file, "p"),
        Ok(("\nname = \"x\"\n".to_string(), "Do it.".to_string()))
    );
    assert_eq!(parse_skill_md("text", "p"), Err("Missing frontmatter in p".to_string()));
    assert_eq!(parse_skill_md("---\ntext", "p"), Err("Unterminated frontmatter in p".to_string()));
}

#[test]
fn a_skill_file_gets_another_body() {
    let file = frame_skill("name = \"x\"\n", "old");
    assert_eq!(update_content(&file, "new"), frame_skill("name = \"x\"\n", "new"));
    assert_eq!(update_content("no manifest", "new"), "new");
    let dashed = frame_skill("name = \"a---b\"\n", "old");
    assert_eq!(update_content(&dashed, "new"), frame_skill("name = \"a---b\"\n", "new"));
}

#[test]
fn a_skill_file_is_patched() {
    assert_eq!(patch_content("a b a", "a", "c", "s"), Ok("c b c".to_string()));
    assert_eq!(patch_content("ab", "", "-", "s"), Ok("-a-b-".to_string()));
    assert_eq!(patch_content("a b a", "a", "a", "s"), Ok("a b a".to_string()));
    assert_eq!(patch_content("ab", "", "", "s"), Ok("ab".to_string()));
    assert_eq!(
        patch_content("ab", "x", "-", "s"),
        Err("old_string not found in skill 's'".to_string())
    );
}

#[test]
fn skill_files_are_found() {
    let file = |name: &str, dir: Option<&str>| FoundFile {
        name: name.to_string(),
        directory: dir.map(|d| d.to_string()),
    };
    let files = vec![file("SKILL.md", None), file("x.md", Some("s")), file("SKILL.md", Some("s"))];
    assert_eq!(pick_skill_file(&files, "s"), Some(2));
    assert_eq!(pick_skill_file(&files, "t"), None);
    assert_eq!(skill_not_found("t"), "Skill 't' not found");
    let m = SkillManager::new("/skills");
    assert_eq!(m.skill_dir("s"), "/skills/s");
    assert_eq!(m.skill_path("s"), "/skills/s/SKILL.md");
}

#[test]
fn skills_are_listed() {
    let skills = vec![("a".to_string(), "first".to_string()), ("b".to_string(), "second".to_string())];
    assert_eq!(handle_skills_list(&skills), "- a: first\n- b: second");
    assert_eq!(
        build_skill_index_prompt(&skills),
        "## Available Skills\nInvoke a skill by name with a leading slash (e.g., /skill-name).\n\n\
         - /a: first\n- /b: second"
    );
    assert_eq!(handle_skills_list(&vec![]), "No skills available. Use skill_manage to create one.");
    assert_eq!(build_skill_index_prompt(&vec![]), "");
    assert_eq!(
        invoke_skill("a", "body", "/d", "now"),
        "[IMPORTANT: The user has invoked the \"a\" skill]\n\nbody\n\n[Skill directory: /d]\n\n\n\
         [User instruction: now]\n"
    );
    assert_eq!(
        invoke_skill("a", "body", "/d", ""),
        "[IMPORTANT: The user has invoked the \"a\" skill]\n\nbody\n\n[Skill directory: /d]\n"
    );
}

#[test]
fn the_skill_tool_is_asked() {
    let ask = |s: &str| handle_skill_manage(&parse(s).unwrap());
    assert!(matches!(
        ask(r#"{"action":"create","name":"n","description":"d"}"#),
        Ok(SkillAction::Create { name, description, content })
            if name == "n" && description == "d" && content == ""
    ));
    assert!(matches!(
        ask(r#"{"action":"update","name":"n","content":"c"}"#),
        Ok(SkillAction::Update { content, .. }) if content == "c"
    ));
    assert!(matches!(
        ask(r#"{"action":"patch","name":"n","old_string":"o","new_string":"p"}"#),
        Ok(SkillAction::Patch { old_string, new_string, .. }) if old_string == "o" && new_string == "p"
    ));
    assert!(matches!(ask(r#"{"action":"delete","name":"n"}"#), Ok(SkillAction::Delete { .. })));
    let refused = |s: &str| ask(s).err().unwrap();
    assert_eq!(refused("{}"), "Missing action");
    assert_eq!(refused(r#"{"action":"create"}"#), "Missing name");
    assert_eq!(refused(r#"{"action":"create","name":"n"}"#), "Missing description for create");
    assert_eq!(refused(r#"{"action":"patch","name":"n"}"#), "Missing old_string");
    assert_eq!(refused(r#"{"action":"patch","name":"n","old_string":"o"}"#), "Missing new_string");
    assert_eq!(refused(r#"{"action":"fly","name":"n"}"#), "Unknown action: fly");
    assert_eq!(handle_skill_view(&parse(r#"{"name":"n"}"#).unwrap()), Ok("n".to_string()));
    assert_eq!(handle_skill_view(&parse("{}").unwrap()), Err("Missing name".to_string()));
}

#[test]
fn the_skill_tool_answers() {
    let delete = SkillAction::Delete { name: "n".to_string() };
    assert_eq!(done_text(&delete, ""), "Deleted skill 'n'");
    let update = SkillAction::Update { name: "n".to_string(), content: String::new() };
    assert_eq!(done_text(&update, "/p"), "Updated skill 'n' at /p");
    let m = new_manifest("n", "d", "2024-01-01T00:00:00Z");
    assert_eq!((m.version.as_str(), m.author.as_str(), m.usage_count), ("1.0.0", "mini-agent", 0));
    assert_eq!(m.created_at, m.updated_at);
    let tools = get_skill_tools();
    assert_eq!(tools.len(), 3);
    assert_eq!(tools[0].name, "skill_manage");
    assert_eq!(
        render(&tools[0].parameters),
        r#"{"properties":{"action":{"enum":["create","update","patch","delete"],"type":"string"},"content":{"description":"Full SKILL.md content (for create/update)","type":"string"},"description":{"description":"Short description (required for create)","type":"string"},"name":{"description":"Skill name (lowercase, kebab-case)","type":"string"},"new_string":{"description":"Replacement text (for patch)","type":"string"},"old_string":{"description":"Text to replace (for patch)","type":"string"}},"required":["action","name"],"type":"object"}"#
    );
    assert_eq!(
        render(&tools[1].parameters),
        r#"{"properties":{},"required":[],"type":"object"}"#
    );
    assert_eq!(
        render(&tools[2].parameters),
        r#"{"properties":{"name":{"description":"Name of the skill to view","type":"string"}},"required":["name"],"type":"object"}"#
    );
}
