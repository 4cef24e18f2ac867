//! The command line and the dialogue with the user: arguments, commands, the tools for memory,
//! and the setup wizard.

use crate::agent;
use crate::agent::Agent;
use crate::bytes;
use crate::config;
use crate::file_memory::MemoryTarget;
use crate::json;
use crate::json::{Json, JsonView};
use crate::memory_reviewer::ReviewResult;
use crate::models;
use crate::models::{AgentConfig, ReviewConfig, ToolSchema};
use crate::number;
use crate::observer::Event;
use crate::schema;
use crate::skill;
use crate::text;
use vstd::prelude::*;

verus! {

// ---------------------------------------------------------------------------
// Arguments
// ---------------------------------------------------------------------------

/// What the program is started for.
#[derive(Debug)]
pub enum CliAction {
    Version,
    Help,
    Setup,
    /// The option for the configuration lacks its path.
    MissingConfigPath,
    Run { config: Option<String> },
}

/// What the program is started for, as plain texts.
pub enum CliView {
    Version,
    Help,
    Setup,
    MissingConfigPath,
    Run(Option<Seq<char>>),
}

impl View for CliAction {
    type V = CliView;

    open spec fn view(&self) -> CliView {
        match *self {
            CliAction::Version => CliView::Version,
            CliAction::Help => CliView::Help,
            CliAction::Setup => CliView::Setup,
            CliAction::MissingConfigPath => CliView::MissingConfigPath,
            CliAction::Run { config } => CliView::Run(models::opt_text(config)),
        }
    }
}

/// What the arguments from position `i` on ask for, with the configuration named so far. The
/// first of the options that end the program decides; unknown arguments are passed over.
pub open spec fn cli_from(args: Seq<Seq<char>>, i: int, config: Option<Seq<char>>) -> CliView
    decreases args.len() - i,
{
    if i < 0 || i >= args.len() {
        CliView::Run(config)
    } else if args[i] == "--version"@ || args[i] == "-v"@ {
        CliView::Version
    } else if args[i] == "--help"@ || args[i] == "-h"@ {
        CliView::Help
    } else if args[i] == "--setup"@ || args[i] == "--onboard"@ {
        CliView::Setup
    } else if args[i] == "--config"@ || args[i] == "-c"@ {
        if i + 1 < args.len() {
            cli_from(args, i + 2, Some(args[i + 1]))
        } else {
            CliView::MissingConfigPath
        }
    } else {
        cli_from(args, i + 1, config)
    }
}

/// What the arguments ask for; the first of them is the name of the program.
pub fn parse_args(args: &Vec<String>) -> (r: CliAction)
    ensures
        r@ == cli_from(text::texts(args@), 1, None),
{
    let ghost all = text::texts(args@);
    let mut config: Option<String> = None;
    let mut i: usize = 1;
    let n: usize = args.len();
    while i < n
        invariant
            1 <= i,
            n == args@.len(),
            i <= n || n == 0 || i == n + 1,
            all == text::texts(args@),
            cli_from(all, 1, None) == cli_from(all, i as int, models::opt_text(config)),
        decreases n + 1 - i,
    {
        let a: &str = args[i].as_str();
        assert(all[i as int] == a@);
        if text::same(a, "--version") || text::same(a, "-v") {
            return CliAction::Version;
        }
        if text::same(a, "--help") || text::same(a, "-h") {
            return CliAction::Help;
        }
        if text::same(a, "--setup") || text::same(a, "--onboard") {
            return CliAction::Setup;
        }
        if text::same(a, "--config") || text::same(a, "-c") {
            if i + 1 >= n {
                return CliAction::MissingConfigPath;
            }
            config = Some(args[i + 1].clone());
            i = i + 1;
        }
        i = i + 1;
    }
    CliAction::Run { config }
}

// ---------------------------------------------------------------------------
// Commands
// ---------------------------------------------------------------------------

/// A command of the user.
#[derive(Debug)]
pub enum SlashCommand {
    Quit,
    Help,
    New,
    Review,
    Skills,
    Memory,
    Clear,
    /// Go over to another model; without a name, say how.
    Model { name: Option<String> },
    /// Invoke a skill.
    Skill { name: String, instruction: String },
    /// Nothing: there is only a slash.
    Nothing,
}

/// A command of the user as plain texts.
pub enum SlashView {
    Quit,
    Help,
    New,
    Review,
    Skills,
    Memory,
    Clear,
    Model(Option<Seq<char>>),
    Skill(Seq<char>, Seq<char>),
    Nothing,
}

impl View for SlashCommand {
    type V = SlashView;

    open spec fn view(&self) -> SlashView {
        match *self {
            SlashCommand::Quit => SlashView::Quit,
            SlashCommand::Help => SlashView::Help,
            SlashCommand::New => SlashView::New,
            SlashCommand::Review => SlashView::Review,
            SlashCommand::Skills => SlashView::Skills,
            SlashCommand::Memory => SlashView::Memory,
            SlashCommand::Clear => SlashView::Clear,
            SlashCommand::Model { name } => SlashView::Model(models::opt_text(name)),
            SlashCommand::Skill { name, instruction } => SlashView::Skill(name@, instruction@),
            SlashCommand::Nothing => SlashView::Nothing,
        }
    }
}

/// The command in the words that the user typed; one that is not built in names a skill.
pub open spec fn command_in(words: Seq<Seq<char>>) -> SlashView {
    let cmd = if words.len() > 0 {
        words[0]
    } else {
        Seq::empty()
    };
    if cmd == "/quit"@ || cmd == "/exit"@ || cmd == "/q"@ {
        SlashView::Quit
    } else if cmd == "/help"@ || cmd == "/h"@ {
        SlashView::Help
    } else if cmd == "/new"@ {
        SlashView::New
    } else if cmd == "/review"@ {
        SlashView::Review
    } else if cmd == "/skills"@ {
        SlashView::Skills
    } else if cmd == "/memory"@ {
        SlashView::Memory
    } else if cmd == "/clear"@ {
        SlashView::Clear
    } else if cmd == "/model"@ {
        SlashView::Model(
            if words.len() > 1 {
                Some(words[1])
            } else {
                None
            },
        )
    } else if cmd.len() > 1 {
        SlashView::Skill(cmd.skip(1), text::joined(words.skip(1), " "@))
    } else {
        SlashView::Nothing
    }
}

/// Whether what the user typed is a command.
pub fn is_command(input: &str) -> (r: bool)
    ensures
        r == text::begins(input@, "/"@),
{
    text::starts_with(input, "/")
}

/// The command that the user typed.
pub fn parse_slash(input: &str) -> (r: SlashCommand)
    ensures
        r@ == command_in(text::word_seq(input@)),
{
    let words: Vec<String> = text::words(input);
    let ghost all = text::texts(words@);
    let cmd: String = if words.len() > 0 {
        words[0].clone()
    } else {
        String::new()
    };
    assert(cmd@ == if all.len() > 0 {
        all[0]
    } else {
        Seq::empty()
    });
    let c: &str = cmd.as_str();
    if text::same(c, "/quit") || text::same(c, "/exit") || text::same(c, "/q") {
        SlashCommand::Quit
    } else if text::same(c, "/help") || text::same(c, "/h") {
        SlashCommand::Help
    } else if text::same(c, "/new") {
        SlashCommand::New
    } else if text::same(c, "/review") {
        SlashCommand::Review
    } else if text::same(c, "/skills") {
        SlashCommand::Skills
    } else if text::same(c, "/memory") {
        SlashCommand::Memory
    } else if text::same(c, "/clear") {
        SlashCommand::Clear
    } else if text::same(c, "/model") {
        let name: Option<String> = if words.len() > 1 {
            Some(words[1].clone())
        } else {
            None
        };
        SlashCommand::Model { name }
    } else if c.unicode_len() > 1 {
        let mut rest: Vec<String> = Vec::new();
        let mut i: usize = 1;
        assert(text::texts(rest@) =~= all.subrange(1, 1));
        while i < words.len()
            invariant
                1 <= i <= words@.len(),
                all == text::texts(words@),
                text::texts(rest@) == all.subrange(1, i as int),
            decreases words@.len() - i,
        {
            let ghost before = text::texts(rest@);
            rest.push(words[i].clone());
            proof {
                assert(text::texts(rest@) =~= before.push(all[i as int]));
                assert(all.subrange(1, i + 1) =~= before.push(all[i as int]));
            }
            i = i + 1;
        }
        assert(all.subrange(1, i as int) =~= all.skip(1));
        SlashCommand::Skill {
            name: text::rest_from(c, 1).to_owned(),
            instruction: text::join(&rest, " "),
        }
    } else {
        SlashCommand::Nothing
    }
}

/// The list of commands.
pub fn help_text() -> (r: String)
    ensures
        r@
            == "Commands:\n  /quit, /q       Exit\n  /help, /h       Show this help\n  /new            Start a new session\n  /review         Run memory review on current conversation\n  /skills         List available skills\n  /memory         Show memory status\n  /clear          Clear conversation history\n  /model <name>   Switch model\n\nInvoke a skill: /skill-name"@,
{
    "Commands:\n  /quit, /q       Exit\n  /help, /h       Show this help\n  /new            Start a new session\n  /review         Run memory review on current conversation\n  /skills         List available skills\n  /memory         Show memory status\n  /clear          Clear conversation history\n  /model <name>   Switch model\n\nInvoke a skill: /skill-name".to_owned()
}

/// What the user is told of the state of the agent.
pub fn memory_status(agent: &Agent) -> (r: String)
    ensures
        r@ == "Memory status:\n  Session: "@ + agent.session_id@ + "\n  Turns: "@
            + number::decimal(agent.turn_count as nat) + "\n  API calls: "@ + number::decimal(
            agent.api_call_count as nat,
        ) + "\n  Budget: "@ + number::decimal(agent.iteration_budget.used as nat) + "/"@
            + number::decimal(agent.iteration_budget.max_total as nat),
{
    let mut out: String = text::concat4(
        "Memory status:\n  Session: ",
        agent.session_id.as_str(),
        "\n  Turns: ",
        number::show_size(agent.turn_count).as_str(),
    );
    out.append("\n  API calls: ");
    out.append(number::show_size(agent.api_call_count).as_str());
    out.append("\n  Budget: ");
    out.append(number::show_size(agent.iteration_budget.used).as_str());
    out.append("/");
    out.append(number::show_size(agent.iteration_budget.max_total).as_str());
    out
}

/// What the user is told of a new session. Both identifiers must be ones that can be cut behind
/// 8 bytes.
pub fn new_session_text(old_id: &str, new_id: &str) -> (r: String)
    requires
        bytes::cuttable(old_id@, 8),
        bytes::cuttable(new_id@, 8),
    ensures
        r@ == "🆕 New session started. Old: "@ + bytes::byte_prefix(old_id@, 8) + "..., New: "@
            + bytes::byte_prefix(new_id@, 8) + "..."@,
{
    text::concat5(
        "🆕 New session started. Old: ",
        bytes::prefix(old_id, 8),
        "..., New: ",
        bytes::prefix(new_id, 8),
        "...",
    )
}

/// What the user is told of a review.
pub fn review_text(kind: &str, result: &ReviewResult) -> (r: String)
    ensures
        r@ == if result.actions_executed > 0 {
            "📝 "@ + kind@ + " saved "@ + number::decimal(result.actions_executed as nat)
                + " memories: "@ + result.summary@
        } else {
            "📝 "@ + kind@ + ": "@ + result.summary@
        },
{
    if result.actions_executed > 0 {
        let mut out: String = text::concat5(
            "📝 ",
            kind,
            " saved ",
            number::show_size(result.actions_executed).as_str(),
            " memories: ",
        );
        out.append(result.summary.as_str());
        out
    } else {
        text::concat4("📝 ", kind, ": ", result.summary.as_str())
    }
}

/// What the user is told of a command that nobody knows.
pub fn unknown_command_text(cmd: &str) -> (r: String)
    ensures
        r@ == "Unknown command or skill: "@ + cmd@ + ". Type /help for available commands."@,
{
    text::concat3("Unknown command or skill: ", cmd, ". Type /help for available commands.")
}

/// What the terminal shows of an event; the duration of a tool comes as it is to be shown.
pub fn terminal_text(event: &Event, duration: &str) -> (r: Option<String>)
    ensures
        models::opt_text(r) == match *event {
            Event::ToolCall { name, args } => Some(
                "\n🔧 Calling tool: "@ + name@ + "("@ + json::rendered(args@) + ")"@,
            ),
            Event::ToolResult { name, success, .. } => Some(
                (if success {
                    "✅"@
                } else {
                    "❌"@
                }) + " Tool "@ + name@ + " finished in "@ + duration@,
            ),
            _ => None,
        },
{
    match event {
        Event::ToolCall { name, args } => Some(
            text::concat5(
                "\n🔧 Calling tool: ",
                name.as_str(),
                "(",
                json::render(args).as_str(),
                ")",
            ),
        ),
        Event::ToolResult { name, success, .. } => {
            let icon: &str = if *success {
                "✅"
            } else {
                "❌"
            };
            Some(text::concat5(icon, " Tool ", name.as_str(), " finished in ", duration))
        },
        _ => None,
    }
}

// ---------------------------------------------------------------------------
// The memory tool
// ---------------------------------------------------------------------------

/// What the memory tool is asked for.
#[derive(Debug)]
pub enum MemoryRequest {
    Add { key: String, value: String, category: Option<String> },
    /// Something is to be added, but nothing is said of what.
    EmptyAdd,
    Recall { query: String },
    ProfileSet { key: String, value: String },
    ProfileGet { key: String },
    Replace { target: MemoryTarget, old_text: String, content: String },
    Remove { target: MemoryTarget, old_text: String },
    Unknown { action: String },
}

/// What the memory tool is asked for, as plain texts.
pub enum MemoryAsk {
    Add(Seq<char>, Seq<char>, Option<Seq<char>>),
    EmptyAdd,
    Recall(Seq<char>),
    ProfileSet(Seq<char>, Seq<char>),
    ProfileGet(Seq<char>),
    Replace(MemoryTarget, Seq<char>, Seq<char>),
    Remove(MemoryTarget, Seq<char>),
    Unknown(Seq<char>),
}

impl View for MemoryRequest {
    type V = MemoryAsk;

    open spec fn view(&self) -> MemoryAsk {
        match *self {
            MemoryRequest::Add { key, value, category } => MemoryAsk::Add(
                key@,
                value@,
                models::opt_text(category),
            ),
            MemoryRequest::EmptyAdd => MemoryAsk::EmptyAdd,
            MemoryRequest::Recall { query } => MemoryAsk::Recall(query@),
            MemoryRequest::ProfileSet { key, value } => MemoryAsk::ProfileSet(key@, value@),
            MemoryRequest::ProfileGet { key } => MemoryAsk::ProfileGet(key@),
            MemoryRequest::Replace { target, old_text, content } => MemoryAsk::Replace(
                target,
                old_text@,
                content@,
            ),
            MemoryRequest::Remove { target, old_text } => MemoryAsk::Remove(target, old_text@),
            MemoryRequest::Unknown { action } => MemoryAsk::Unknown(action@),
        }
    }
}

/// The text of a member of the arguments, empty where there is none.
pub open spec fn arg(args: JsonView, key: Seq<char>) -> Seq<char> {
    models::text_or_empty(json::text_member(args, key))
}

/// The key that is made of a value: its first three words.
pub open spec fn derived_key(value: Seq<char>) -> Seq<char> {
    let words = text::word_seq(value);
    text::joined(
        if words.len() > 3 {
            words.take(3)
        } else {
            words
        },
        "_"@,
    )
}

/// What is to be added: the value, or else the content; under the key, or else one made of it.
pub open spec fn addition(args: JsonView) -> MemoryAsk {
    let value = if arg(args, "value"@).len() > 0 {
        arg(args, "value"@)
    } else {
        arg(args, "content"@)
    };
    let key = if arg(args, "key"@).len() > 0 {
        arg(args, "key"@)
    } else {
        derived_key(value)
    };
    if key.len() == 0 || value.len() == 0 {
        MemoryAsk::EmptyAdd
    } else {
        MemoryAsk::Add(key, value, json::text_member(args, "category"@))
    }
}

/// The file that the arguments name: that of the user if they say so, else that of the agent.
pub open spec fn target_in(args: JsonView) -> MemoryTarget {
    match json::text_member(args, "target"@) {
        Some(t) => if t == "user"@ || t == "USER.md"@ {
            MemoryTarget::User
        } else {
            MemoryTarget::Memory
        },
        None => MemoryTarget::Memory,
    }
}

/// What the arguments of the memory tool ask for.
pub open spec fn memory_asked(args: JsonView) -> MemoryAsk {
    let action = arg(args, "action"@);
    if action == "add"@ {
        addition(args)
    } else if action == "recall"@ {
        MemoryAsk::Recall(arg(args, "query"@))
    } else if action == "profile_set"@ {
        MemoryAsk::ProfileSet(arg(args, "key"@), arg(args, "value"@))
    } else if action == "profile_get"@ {
        MemoryAsk::ProfileGet(arg(args, "key"@))
    } else if action == "replace"@ {
        MemoryAsk::Replace(target_in(args), arg(args, "old_text"@), arg(args, "content"@))
    } else if action == "remove"@ {
        MemoryAsk::Remove(target_in(args), arg(args, "old_text"@))
    } else {
        MemoryAsk::Unknown(action)
    }
}

fn text_arg(args: &Json, key: &str) -> (r: String)
    ensures
        r@ == arg(args@, key@),
{
    match args.get_str(key) {
        Some(s) => s.to_owned(),
        None => String::new(),
    }
}

fn make_key(value: &str) -> (r: String)
    ensures
        r@ == derived_key(value@),
{
    let words: Vec<String> = text::words(value);
    let ghost all = text::texts(words@);
    let mut first: Vec<String> = Vec::new();
    let mut i: usize = 0;
    assert(text::texts(first@) =~= all.take(0));
    while i < words.len() && i < 3
        invariant
            i <= words@.len(),
            i <= 3,
            all == text::texts(words@),
            text::texts(first@) == all.take(i as int),
        decreases words@.len() - i,
    {
        let ghost before = text::texts(first@);
        first.push(words[i].clone());
        proof {
            assert(text::texts(first@) =~= before.push(all[i as int]));
            assert(all.take(i + 1) =~= before.push(all[i as int]));
        }
        i = i + 1;
    }
    proof {
        if i == all.len() {
            assert(all.take(i as int) =~= all);
        }
    }
    text::join(&first, "_")
}

fn make_addition(args: &Json) -> (r: MemoryRequest)
    ensures
        r@ == addition(args@),
{
    let given: String = text_arg(args, "value");
    let value: String = if given.as_str().unicode_len() > 0 {
        given
    } else {
        text_arg(args, "content")
    };
    let named: String = text_arg(args, "key");
    let key: String = if named.as_str().unicode_len() > 0 {
        named
    } else {
        make_key(value.as_str())
    };
    if key.as_str().unicode_len() == 0 || value.as_str().unicode_len() == 0 {
        MemoryRequest::EmptyAdd
    } else {
        let category: Option<String> = match args.get_str("category") {
            Some(c) => Some(c.to_owned()),
            None => None,
        };
        MemoryRequest::Add { key, value, category }
    }
}

fn find_target(args: &Json) -> (r: MemoryTarget)
    ensures
        r == target_in(args@),
{
    match args.get_str("target") {
        Some(t) => if text::same(t, "user") || text::same(t, "USER.md") {
            MemoryTarget::User
        } else {
            MemoryTarget::Memory
        },
        None => MemoryTarget::Memory,
    }
}

/// What the arguments of the memory tool ask for.
pub fn memory_request(args: &Json) -> (r: MemoryRequest)
    ensures
        r@ == memory_asked(args@),
{
    let action: String = text_arg(args, "action");
    let a: &str = action.as_str();
    if text::same(a, "add") {
        make_addition(args)
    } else if text::same(a, "recall") {
        MemoryRequest::Recall { query: text_arg(args, "query") }
    } else if text::same(a, "profile_set") {
        MemoryRequest::ProfileSet { key: text_arg(args, "key"), value: text_arg(args, "value") }
    } else if text::same(a, "profile_get") {
        MemoryRequest::ProfileGet { key: text_arg(args, "key") }
    } else if text::same(a, "replace") {
        MemoryRequest::Replace {
            target: find_target(args),
            old_text: text_arg(args, "old_text"),
            content: text_arg(args, "content"),
        }
    } else if text::same(a, "remove") {
        MemoryRequest::Remove { target: find_target(args), old_text: text_arg(args, "old_text") }
    } else {
        MemoryRequest::Unknown { action }
    }
}

/// What the tool answers when a request succeeded or found nothing; `found` says which. Requests
/// whose answer holds more than that have none here.
pub fn memory_answer(request: &MemoryRequest, found: bool) -> (r: Option<String>)
    ensures
        models::opt_text(r) == match request@ {
            MemoryAsk::Add(key, value, _) => Some("Remembered: "@ + key + " = "@ + value),
            MemoryAsk::EmptyAdd => Some("Error: 'add' requires content or (key + value)."@),
            MemoryAsk::ProfileSet(key, value) => Some("Set profile: "@ + key + " = "@ + value),
            MemoryAsk::ProfileGet(key) => if found {
                None
            } else {
                Some("No profile entry for '"@ + key + "'"@)
            },
            MemoryAsk::Recall(_) => if found {
                None
            } else {
                Some("No relevant memories found."@)
            },
            MemoryAsk::Replace(_, _, _) => Some(
                if found {
                    "Entry replaced successfully."@
                } else {
                    "No matching entry found to replace."@
                },
            ),
            MemoryAsk::Remove(_, _) => Some(
                if found {
                    "Entry removed successfully."@
                } else {
                    "No matching entry found to remove."@
                },
            ),
            MemoryAsk::Unknown(_) => None,
        },
{
    match request {
        MemoryRequest::Add { key, value, .. } => Some(
            text::concat4("Remembered: ", key.as_str(), " = ", value.as_str()),
        ),
        MemoryRequest::EmptyAdd => Some(
            "Error: 'add' requires content or (key + value).".to_owned(),
        ),
        MemoryRequest::ProfileSet { key, value } => Some(
            text::concat4("Set profile: ", key.as_str(), " = ", value.as_str()),
        ),
        MemoryRequest::ProfileGet { key } => if found {
            None
        } else {
            Some(text::concat3("No profile entry for '", key.as_str(), "'"))
        },
        MemoryRequest::Recall { .. } => if found {
            None
        } else {
            Some("No relevant memories found.".to_owned())
        },
        MemoryRequest::Replace { .. } => if found {
            Some("Entry replaced successfully.".to_owned())
        } else {
            Some("No matching entry found to replace.".to_owned())
        },
        MemoryRequest::Remove { .. } => if found {
            Some("Entry removed successfully.".to_owned())
        } else {
            Some("No matching entry found to remove.".to_owned())
        },
        MemoryRequest::Unknown { .. } => None,
    }
}

/// The error that the memory tool is asked for something that it does not do.
pub fn unknown_memory_action(action: &str) -> (r: String)
    ensures
        r@ == "Unknown memory action: "@ + action@,
{
    text::concat2("Unknown memory action: ", action)
}

/// The parameters of the memory tool.
pub open spec fn memory_parameters() -> JsonView {
    schema::object_of(
        seq![
            (
                "action"@,
                schema::one_of(
                    seq![
                        "add"@,
                        "recall"@,
                        "profile_set"@,
                        "profile_get"@,
                        "replace"@,
                        "remove"@,
                    ],
                ),
            ),
            (
                "target"@,
                schema::described_one_of(
                    seq!["memory"@, "user"@],
                    "Target file (memory=MEMORY.md, user=USER.md)"@,
                ),
            ),
            ("key"@, schema::plain("string"@)),
            ("value"@, schema::plain("string"@)),
            ("category"@, schema::plain("string"@)),
            ("query"@, schema::plain("string"@)),
            ("old_text"@, schema::described("Text to find for replace/remove"@)),
            ("content"@, schema::described("New content for replace"@)),
        ],
        seq!["action"@],
    )
}

fn make_memory_parameters() -> (r: Json)
    ensures
        r@ == memory_parameters(),
{
    let mut props: Vec<(String, Json)> = Vec::new();
    let actions: Vec<&str> = vec![
        "add",
        "recall",
        "profile_set",
        "profile_get",
        "replace",
        "remove",
    ];
    assert(schema::strs(actions@) =~= seq![
        "add"@,
        "recall"@,
        "profile_set"@,
        "profile_get"@,
        "replace"@,
        "remove"@,
    ]);
    props.push(("action".to_owned(), schema::make_one_of(actions)));
    let targets: Vec<&str> = vec!["memory", "user"];
    assert(schema::strs(targets@) =~= seq!["memory"@, "user"@]);
    props.push(
        (
            "target".to_owned(),
            schema::make_described_one_of(
                targets,
                "Target file (memory=MEMORY.md, user=USER.md)",
            ),
        ),
    );
    props.push(("key".to_owned(), schema::make_plain("string")));
    props.push(("value".to_owned(), schema::make_plain("string")));
    props.push(("category".to_owned(), schema::make_plain("string")));
    props.push(("query".to_owned(), schema::make_plain("string")));
    props.push(("old_text".to_owned(), schema::make_described("Text to find for replace/remove")));
    props.push(("content".to_owned(), schema::make_described("New content for replace")));
    let required: Vec<&str> = vec!["action"];
    proof {
        assert(schema::strs(required@) =~= seq!["action"@]);
        let all = memory_parameters()->Object_0[1].1->Object_0;
        assert(json::members(props@) =~= all);
    }
    schema::make_object(props, required)
}

/// The parameters of the tool that searches sessions.
pub open spec fn search_parameters() -> JsonView {
    schema::object_of(
        seq![
            ("mode"@, schema::one_of(seq!["discover"@, "scroll"@, "browse"@])),
            ("query"@, schema::described("Search query (for discover mode)"@)),
            ("session_id"@, schema::plain("string"@)),
            ("message_id"@, schema::plain("integer"@)),
            ("limit"@, schema::integer_or(10)),
        ],
        Seq::empty(),
    )
}

fn make_search_parameters() -> (r: Json)
    ensures
        r@ == search_parameters(),
{
    let mut props: Vec<(String, Json)> = Vec::new();
    let choices: Vec<&str> = vec!["discover", "scroll", "browse"];
    assert(schema::strs(choices@) =~= seq!["discover"@, "scroll"@, "browse"@]);
    props.push(("mode".to_owned(), schema::make_one_of(choices)));
    props.push(("query".to_owned(), schema::make_described("Search query (for discover mode)")));
    props.push(("session_id".to_owned(), schema::make_plain("string")));
    props.push(("message_id".to_owned(), schema::make_plain("integer")));
    props.push(("limit".to_owned(), schema::make_integer_or(10)));
    let required: Vec<&str> = Vec::new();
    proof {
        assert(schema::strs(required@) =~= Seq::<Seq<char>>::empty());
        let all = search_parameters()->Object_0[1].1->Object_0;
        assert(json::members(props@) =~= all);
    }
    schema::make_object(props, required)
}

/// The tools for memory and for past sessions.
pub fn builtin_tools() -> (r: Vec<ToolSchema>)
    ensures
        r@.len() == 2,
        skill::is_schema(
            r@[0],
            "memory"@,
            "Add a fact to long-term semantic memory."@,
            memory_parameters(),
        ),
        skill::is_schema(
            r@[1],
            "session_search"@,
            "Search past conversation sessions for relevant context."@,
            search_parameters(),
        ),
{
    let mut out: Vec<ToolSchema> = Vec::new();
    out.push(
        skill::schema(
            "memory",
            "Add a fact to long-term semantic memory.",
            make_memory_parameters(),
        ),
    );
    out.push(
        skill::schema(
            "session_search",
            "Search past conversation sessions for relevant context.",
            make_search_parameters(),
        ),
    );
    out
}

// ---------------------------------------------------------------------------
// The setup wizard
// ---------------------------------------------------------------------------

/// What the wizard offers for a provider: its name, its address and its usual model.
pub struct Provider {
    pub name: String,
    pub base_url: String,
    pub model: String,
}

/// The choice, as typed, is to give an address of one's own.
pub open spec fn is_custom(choice: Seq<char>) -> bool {
    text::trimmed(choice) == "4"@
}

/// What the wizard offers for a choice, as typed.
pub open spec fn offered(choice: Seq<char>) -> (Seq<char>, Seq<char>, Seq<char>) {
    let c = text::trimmed(choice);
    if c == "2"@ {
        ("openrouter"@, "https://openrouter.ai/api/v1"@, "openai/gpt-4o-mini"@)
    } else if c == "3"@ {
        ("ollama"@, "http://localhost:11434/v1"@, "llama3.2"@)
    } else if c == "4"@ {
        ("custom"@, ""@, ""@)
    } else {
        ("openai"@, "https://api.openai.com/v1"@, "gpt-4o-mini"@)
    }
}

/// Whether the choice, as typed, is to give an address of one's own.
pub fn wants_custom(choice: &str) -> (r: bool)
    ensures
        r == is_custom(choice@),
{
    text::same(text::trim(choice), "4")
}

/// What the wizard offers for a choice, as typed.
pub fn provider_for(choice: &str) -> (r: Provider)
    ensures
        (r.name@, r.base_url@, r.model@) == offered(choice@),
{
    let c: &str = text::trim(choice);
    if text::same(c, "2") {
        Provider {
            name: "openrouter".to_owned(),
            base_url: "https://openrouter.ai/api/v1".to_owned(),
            model: "openai/gpt-4o-mini".to_owned(),
        }
    } else if text::same(c, "3") {
        Provider {
            name: "ollama".to_owned(),
            base_url: "http://localhost:11434/v1".to_owned(),
            model: "llama3.2".to_owned(),
        }
    } else if text::same(c, "4") {
        Provider { name: "custom".to_owned(), base_url: "".to_owned(), model: "".to_owned() }
    } else {
        Provider {
            name: "openai".to_owned(),
            base_url: "https://api.openai.com/v1".to_owned(),
            model: "gpt-4o-mini".to_owned(),
        }
    }
}

/// The answer, as typed, is that one letter, in either case.
pub open spec fn answers(typed: Seq<char>, letter: Seq<char>) -> bool {
    text::same_ignoring_case(text::trimmed(typed), letter)
}

/// Whether the answer to a question with the default no is yes.
pub fn says_yes(typed: &str) -> (r: bool)
    ensures
        r == answers(typed@, "y"@),
{
    text::eq_ignore_case(text::trim(typed), "y")
}

/// Whether the answer to a question with the default yes is not no.
pub fn agrees(typed: &str) -> (r: bool)
    ensures
        r == !answers(typed@, "n"@),
{
    !text::eq_ignore_case(text::trim(typed), "n")
}

/// The model that was typed, or else the usual one.
pub fn chosen_model(typed: &str, usual: &str) -> (r: String)
    ensures
        r@ == if text::trimmed(typed@).len() == 0 {
            usual@
        } else {
            text::trimmed(typed@)
        },
{
    let t: &str = text::trim(typed);
    if t.unicode_len() == 0 {
        usual.to_owned()
    } else {
        t.to_owned()
    }
}

/// What was typed to the wizard.
#[derive(Debug)]
pub struct WizardAnswers {
    pub provider: String,
    /// Asked for only where an address of one's own was chosen.
    pub base_url: String,
    pub api_key: String,
    pub model: String,
    pub memory: String,
    pub heartbeat: String,
}

/// The configuration that the wizard writes.
pub fn wizard_config(a: &WizardAnswers) -> (r: AgentConfig)
    ensures
        ({
            let (name, base_url, model) = offered(a.provider@);
            &&& r.model.provider@ == name
            &&& r.model.base_url@ == if is_custom(a.provider@) {
                text::trimmed(a.base_url@)
            } else {
                base_url
            }
            &&& r.model.api_key@ == text::trimmed(a.api_key@)
            &&& r.model.model@ == if text::trimmed(a.model@).len() == 0 {
                model
            } else {
                text::trimmed(a.model@)
            }
        }),
        config::usual_model(r.model),
        config::usual_memory(r.memory, !answers(a.memory@, "n"@)),
        config::usual_heartbeat(r.heartbeat, answers(a.heartbeat@, "y"@)),
        config::usual_rest(r),
        r.review.enabled && r.review.interval == 10 && r.review.window_size == 8,
        r.review.max_tokens == 4096 && r.review.model_override is None,
{
    let provider: Provider = provider_for(a.provider.as_str());
    let base_url: String = if wants_custom(a.provider.as_str()) {
        text::trim(a.base_url.as_str()).to_owned()
    } else {
        provider.base_url
    };
    let model: String = chosen_model(a.model.as_str(), provider.model.as_str());
    config::new_config(
        provider.name.as_str(),
        model.as_str(),
        text::trim(a.api_key.as_str()),
        base_url.as_str(),
        agrees(a.memory.as_str()),
        says_yes(a.heartbeat.as_str()),
        ReviewConfig {
            enabled: true,
            interval: 10,
            window_size: 8,
            max_tokens: 4096,
            model_override: None,
        },
    )
}

// ---------------------------------------------------------------------------
// Laws
// ---------------------------------------------------------------------------

/// Of several options for the configuration the last one counts: each makes what was named before
/// it irrelevant, and the one at the end is the one that is used.
pub proof fn law_last_configuration_counts(
    args: Seq<Seq<char>>,
    i: int,
    first: Option<Seq<char>>,
    other: Option<Seq<char>>,
)
    requires
        0 <= i,
        i + 1 < args.len(),
        args[i] == "--config"@ || args[i] == "-c"@,
    ensures
        cli_from(args, i, first) == cli_from(args, i, other),
        i + 2 == args.len() ==> cli_from(args, i, first) == CliView::Run(Some(args[i + 1])),
{
    reveal_strlit("--version");
    reveal_strlit("-v");
    reveal_strlit("--help");
    reveal_strlit("-h");
    reveal_strlit("--setup");
    reveal_strlit("--onboard");
    reveal_strlit("--config");
    reveal_strlit("-c");
    assert("--config"@.len() == 8 && "--version"@.len() == 9 && "-v"@.len() == 2 && "--help"@.len()
        == 6 && "-h"@.len() == 2 && "--setup"@.len() == 7 && "--onboard"@.len() == 9);
    assert("-c"@[1] == 'c' && "-v"@[1] == 'v' && "-h"@[1] == 'h');
    assert(cli_from(args, i, first) == cli_from(args, i + 2, Some(args[i + 1])));
    assert(cli_from(args, i, other) == cli_from(args, i + 2, Some(args[i + 1])));
}

/// What is added to memory always has a key and a value.
pub proof fn law_additions_are_complete(args: JsonView)
    ensures
        addition(args) matches MemoryAsk::Add(key, value, _) ==> key.len() > 0 && value.len() > 0,
{
}

/// The identifier of a new session can be shown by its first eight characters.
pub proof fn law_session_ids_have_a_short_form(id: Seq<char>)
    requires
        agent::uuid_shape(id),
    ensures
        bytes::cuttable(id, 8),
        bytes::byte_prefix(id, 8) == id.take(8),
{
    assert forall|i: int| 0 <= i < id.len() implies (#[trigger] id[i] as int) < 128 by {
        if i != 8 && i != 13 && i != 18 && i != 23 {
            assert(agent::hex_digit(id[i]));
        }
    }
    assert(vstd::utf8::is_ascii_chars(id));
    bytes::lemma_ascii_cut(id, 8);
}

proof fn lemma_options_differ()
    ensures
        "--help"@ != "--version"@ && "--help"@ != "-v"@ && "-h"@ != "--version"@ && "-h"@ != "-v"@,
        "--setup"@ != "--version"@ && "--setup"@ != "-v"@ && "--setup"@ != "--help"@ && "--setup"@
            != "-h"@,
        "--onboard"@ != "--version"@ && "--onboard"@ != "-v"@ && "--onboard"@ != "--help"@
            && "--onboard"@ != "-h"@,
        "--config"@ != "--version"@ && "--config"@ != "-v"@ && "--config"@ != "--help"@ && "--config"@
            != "-h"@ && "--config"@ != "--setup"@ && "--config"@ != "--onboard"@,
        "-c"@ != "--version"@ && "-c"@ != "-v"@ && "-c"@ != "--help"@ && "-c"@ != "-h"@ && "-c"@
            != "--setup"@ && "-c"@ != "--onboard"@,
{
    reveal_strlit("--version");
    reveal_strlit("-v");
    reveal_strlit("--help");
    reveal_strlit("-h");
    reveal_strlit("--setup");
    reveal_strlit("--onboard");
    reveal_strlit("--config");
    reveal_strlit("-c");
    assert("--config"@.len() == 8 && "--version"@.len() == 9 && "--help"@.len() == 6
        && "--setup"@.len() == 7 && "--onboard"@.len() == 9);
    assert("--version"@[2] == 'v' && "--onboard"@[2] == 'o');
    assert("-c"@[1] == 'c' && "-v"@[1] == 'v' && "-h"@[1] == 'h');
}

/// Each option is understood under both of its names, wherever it stands; the one for the
/// configuration takes the argument behind it, and what is no option is passed over.
pub proof fn law_options_are_understood(args: Seq<Seq<char>>, i: int, config: Option<Seq<char>>)
    requires
        0 <= i < args.len(),
    ensures
        ({
            let a = args[i];
            let r = cli_from(args, i, config);
            &&& a == "--version"@ || a == "-v"@ ==> r is Version
            &&& a == "--help"@ || a == "-h"@ ==> r is Help
            &&& a == "--setup"@ || a == "--onboard"@ ==> r is Setup
            &&& (a == "--config"@ || a == "-c"@) && i + 1 == args.len() ==> r is MissingConfigPath
            &&& (a == "--config"@ || a == "-c"@) && i + 1 < args.len() ==> r == cli_from(
                args,
                i + 2,
                Some(args[i + 1]),
            )
            &&& a != "--version"@ && a != "-v"@ && a != "--help"@ && a != "-h"@ && a != "--setup"@
                && a != "--onboard"@ && a != "--config"@ && a != "-c"@ ==> r == cli_from(
                args,
                i + 1,
                config,
            )
        }),
        cli_from(args, args.len() as int, config) == CliView::Run(config),
{
    lemma_options_differ();
}

proof fn lemma_commands_differ()
    ensures
        "/model"@ != "/quit"@ && "/model"@ != "/exit"@ && "/model"@ != "/q"@ && "/model"@
            != "/help"@ && "/model"@ != "/h"@ && "/model"@ != "/new"@ && "/model"@ != "/review"@
            && "/model"@ != "/skills"@ && "/model"@ != "/memory"@ && "/model"@ != "/clear"@,
        "/clear"@ != "/quit"@ && "/clear"@ != "/exit"@ && "/clear"@ != "/q"@ && "/clear"@
            != "/help"@ && "/clear"@ != "/h"@ && "/clear"@ != "/new"@ && "/clear"@ != "/review"@
            && "/clear"@ != "/skills"@ && "/clear"@ != "/memory"@,
        "/memory"@ != "/quit"@ && "/memory"@ != "/exit"@ && "/memory"@ != "/q"@ && "/memory"@
            != "/help"@ && "/memory"@ != "/h"@ && "/memory"@ != "/new"@ && "/memory"@ != "/review"@
            && "/memory"@ != "/skills"@,
        "/skills"@ != "/quit"@ && "/skills"@ != "/exit"@ && "/skills"@ != "/q"@ && "/skills"@
            != "/help"@ && "/skills"@ != "/h"@ && "/skills"@ != "/new"@ && "/skills"@ != "/review"@,
        "/review"@ != "/quit"@ && "/review"@ != "/exit"@ && "/review"@ != "/q"@ && "/review"@
            != "/help"@ && "/review"@ != "/h"@ && "/review"@ != "/new"@,
        "/new"@ != "/quit"@ && "/new"@ != "/exit"@ && "/new"@ != "/q"@ && "/new"@ != "/help"@
            && "/new"@ != "/h"@,
        "/help"@ != "/quit"@ && "/help"@ != "/exit"@ && "/help"@ != "/q"@,
        "/h"@ != "/quit"@ && "/h"@ != "/exit"@ && "/h"@ != "/q"@,
{
    reveal_strlit("/quit");
    reveal_strlit("/exit");
    reveal_strlit("/q");
    reveal_strlit("/help");
    reveal_strlit("/h");
    reveal_strlit("/new");
    reveal_strlit("/review");
    reveal_strlit("/skills");
    reveal_strlit("/memory");
    reveal_strlit("/clear");
    reveal_strlit("/model");
    assert("/quit"@[1] == 'q' && "/exit"@[1] == 'e' && "/q"@[1] == 'q' && "/help"@[1] == 'h'
        && "/h"@[1] == 'h' && "/new"@[1] == 'n' && "/review"@[1] == 'r' && "/skills"@[1] == 's'
        && "/memory"@[1] == 'm' && "/clear"@[1] == 'c' && "/model"@[1] == 'm');
    assert("/memory"@.len() == 7 && "/model"@.len() == 6);
}

/// The first word is the command, under each of its names; the model is named by the second word.
pub proof fn law_commands_are_understood(words: Seq<Seq<char>>)
    requires
        words.len() > 0,
    ensures
        ({
            let c = words[0];
            let r = command_in(words);
            &&& c == "/quit"@ || c == "/exit"@ || c == "/q"@ ==> r is Quit
            &&& c == "/help"@ || c == "/h"@ ==> r is Help
            &&& c == "/new"@ ==> r is New
            &&& c == "/review"@ ==> r is Review
            &&& c == "/skills"@ ==> r is Skills
            &&& c == "/memory"@ ==> r is Memory
            &&& c == "/clear"@ ==> r is Clear
            &&& c == "/model"@ && words.len() == 1 ==> r == SlashView::Model(None)
            &&& c == "/model"@ && words.len() > 1 ==> r == SlashView::Model(Some(words[1]))
        }),
        command_in(Seq::empty()) is Nothing,
{
    lemma_commands_differ();
    reveal_strlit("/quit");
    reveal_strlit("/exit");
    reveal_strlit("/q");
    reveal_strlit("/help");
    reveal_strlit("/h");
    reveal_strlit("/new");
    reveal_strlit("/review");
    reveal_strlit("/skills");
    reveal_strlit("/memory");
    reveal_strlit("/clear");
    reveal_strlit("/model");
    assert("/quit"@.len() > 0 && "/exit"@.len() > 0 && "/q"@.len() > 0 && "/help"@.len() > 0
        && "/h"@.len() > 0 && "/new"@.len() > 0 && "/review"@.len() > 0 && "/skills"@.len() > 0
        && "/memory"@.len() > 0 && "/clear"@.len() > 0 && "/model"@.len() > 0);
}

/// Any other command is a skill, named without the slash; all words behind it are the instruction,
/// in order, and those that follow on an instruction are added to it behind a space.
pub proof fn law_other_commands_are_skills(
    name: Seq<char>,
    words: Seq<Seq<char>>,
    word: Seq<char>,
    i: int,
)
    requires
        name.len() > 0,
        command_in(seq![seq!['/'] + name]) is Skill,
    ensures
        ({
            let c = seq!['/'] + name;
            let r = command_in(seq![c] + words);
            let next = command_in(seq![c] + words.push(word));
            &&& command_in(seq![c]) == SlashView::Skill(name, Seq::empty())
            &&& r is Skill && r->Skill_0 == name
            &&& next is Skill && next->Skill_0 == name
            &&& next->Skill_1 == if words.len() == 0 {
                word
            } else {
                r->Skill_1 + " "@ + word
            }
            &&& 0 <= i < words.len() ==> text::includes(r->Skill_1, words[i])
        }),
{
    let c = seq!['/'] + name;
    assert(c.skip(1) =~= name);
    assert(seq![c].skip(1) =~= Seq::<Seq<char>>::empty());
    text::law_joined_grows(words, " "@, word);
    assert(text::joined(Seq::<Seq<char>>::empty(), " "@) =~= Seq::<char>::empty());
    let all = seq![c] + words;
    let more = seq![c] + words.push(word);
    assert(all[0] == c && more[0] == c && seq![c][0] == c);
    assert(all.skip(1) =~= words);
    assert(more.skip(1) =~= words.push(word));
    if 0 <= i < words.len() {
        text::law_joined_holds_every_part(words, " "@, i);
    }
}

proof fn lemma_memory_actions_differ()
    ensures
        "recall"@ != "add"@,
        "profile_set"@ != "add"@ && "profile_set"@ != "recall"@,
        "profile_get"@ != "add"@ && "profile_get"@ != "recall"@ && "profile_get"@ != "profile_set"@,
        "replace"@ != "add"@ && "replace"@ != "recall"@ && "replace"@ != "profile_set"@ && "replace"@
            != "profile_get"@,
        "remove"@ != "add"@ && "remove"@ != "recall"@ && "remove"@ != "profile_set"@ && "remove"@
            != "profile_get"@ && "remove"@ != "replace"@,
{
    reveal_strlit("add");
    reveal_strlit("recall");
    reveal_strlit("profile_set");
    reveal_strlit("profile_get");
    reveal_strlit("replace");
    reveal_strlit("remove");
    assert("add"@[0] == 'a' && "recall"@[2] == 'c' && "profile_set"@[8] == 's' && "profile_get"@[8]
        == 'g' && "replace"@[2] == 'p' && "remove"@[2] == 'm' && "profile_set"@[0] == 'p'
        && "profile_get"@[0] == 'p' && "recall"@[0] == 'r' && "replace"@[0] == 'r' && "remove"@[0]
        == 'r');
}

/// What is asked of the memory tool is taken from the arguments as it stands there.
pub proof fn law_memory_requests_are_taken_at_their_word(args: JsonView)
    ensures
        ({
            let action = json::text_member(args, "action"@);
            let key = json::text_member(args, "key"@);
            let value = json::text_member(args, "value"@);
            let content = json::text_member(args, "content"@);
            let query = json::text_member(args, "query"@);
            let o = json::text_member(args, "old_text"@);
            let target = json::text_member(args, "target"@);
            let r = memory_asked(args);
            &&& action == Some("recall"@) && query is Some ==> r == MemoryAsk::Recall(query->0)
            &&& action == Some("profile_set"@) && key is Some && value is Some ==> r
                == MemoryAsk::ProfileSet(key->0, value->0)
            &&& action == Some("profile_get"@) && key is Some ==> r == MemoryAsk::ProfileGet(key->0)
            &&& action == Some("replace"@) && o is Some && content is Some ==> {
                &&& r is Replace
                &&& r->Replace_1 == o->0
                &&& r->Replace_2 == content->0
                &&& r->Replace_0 == MemoryTarget::User <==> target == Some("user"@) || target
                    == Some("USER.md"@)
            }
            &&& action == Some("remove"@) && o is Some ==> {
                &&& r is Remove
                &&& r->Remove_1 == o->0
                &&& r->Remove_0 == MemoryTarget::User <==> target == Some("user"@) || target
                    == Some("USER.md"@)
            }
            &&& action is Some && action != Some("add"@) && action != Some("recall"@) && action
                != Some("profile_set"@) && action != Some("profile_get"@) && action != Some(
                "replace"@,
            ) && action != Some("remove"@) ==> r == MemoryAsk::Unknown(action->0)
        }),
{
    lemma_memory_actions_differ();
}

/// What is to be remembered is the value, or the content where no value is given, under the key
/// that is given, or else under the first words of what is remembered; the category is kept.
pub proof fn law_additions_are_taken_at_their_word(args: JsonView)
    requires
        json::text_member(args, "action"@) == Some("add"@),
    ensures
        ({
            let key = json::text_member(args, "key"@);
            let value = json::text_member(args, "value"@);
            let content = json::text_member(args, "content"@);
            let category = json::text_member(args, "category"@);
            let r = memory_asked(args);
            let has_key = key is Some && key->0.len() > 0;
            let has_value = value is Some && value->0.len() > 0;
            let has_content = content is Some && content->0.len() > 0;
            &&& has_key && has_value ==> r == MemoryAsk::Add(key->0, value->0, category)
            &&& has_key && !has_value && has_content ==> r == MemoryAsk::Add(
                key->0,
                content->0,
                category,
            )
            &&& !has_value && !has_content ==> r is EmptyAdd
            &&& !has_key && has_value && r is Add ==> r->Add_1 == value->0 && r->Add_2 == category
                && r->Add_0 == derived_key(value->0)
            &&& !has_key && !has_value && has_content && r is Add ==> r->Add_1 == content->0
                && r->Add_2 == category && r->Add_0 == derived_key(content->0)
            &&& !has_key && has_value && text::word_seq(value->0).len() > 0 ==> r is Add
        }),
{
    let value = json::text_member(args, "value"@);
    if value is Some && text::word_seq(value->0).len() > 0 {
        law_derived_keys_are_the_first_words(value->0);
    }
}

/// The key that is made of a text is its first three words, or all where there are fewer, with a
/// line between each two; a text with a word has a key.
pub proof fn law_derived_keys_are_the_first_words(value: Seq<char>)
    ensures
        ({
            let w = text::word_seq(value);
            let k = derived_key(value);
            &&& w.len() == 0 ==> k.len() == 0
            &&& w.len() == 1 ==> k == w[0]
            &&& w.len() == 2 ==> k == w[0] + "_"@ + w[1]
            &&& w.len() >= 3 ==> k == w[0] + "_"@ + w[1] + "_"@ + w[2]
            &&& w.len() > 0 ==> k.len() > 0
        }),
{
    let w = text::word_seq(value);
    let none = Seq::<Seq<char>>::empty();
    let sep = "_"@;
    if w.len() > 0 {
        lemma_first_word(value);
        text::law_joined_grows(none, sep, w[0]);
        assert(none.push(w[0]) =~= w.take(1));
        assert(w.len() == 1 ==> w.take(1) =~= w);
    }
    if w.len() > 1 {
        text::law_joined_grows(w.take(1), sep, w[1]);
        assert(w.take(1).push(w[1]) =~= w.take(2));
        assert(w.len() == 2 ==> w.take(2) =~= w);
    }
    if w.len() > 2 {
        text::law_joined_grows(w.take(2), sep, w[2]);
        assert(w.take(2).push(w[2]) =~= w.take(3));
        assert(w.len() == 3 ==> w.take(3) =~= w);
    }
}

proof fn lemma_first_word(value: Seq<char>)
    requires
        text::word_seq(value).len() > 0,
    ensures
        text::word_seq(value)[0].len() > 0,
{
    text::lemma_word_bounds(value, 0);
    let a = text::word_start(value, 0);
    text::lemma_word_bounds(value, a);
}

/// White space around a choice does not count; who gives an address of their own is offered none,
/// and everyone else is offered an address and a model.
pub proof fn law_offers_are_complete(choice: Seq<char>, other: Seq<char>)
    ensures
        text::trimmed(choice) == text::trimmed(other) ==> offered(choice) == offered(other)
            && is_custom(choice) == is_custom(other),
        is_custom(choice) <==> offered(choice).1.len() == 0,
        is_custom(choice) <==> offered(choice).2.len() == 0,
        offered(choice).0.len() > 0,
{
    reveal_strlit("");
    reveal_strlit("2");
    reveal_strlit("3");
    reveal_strlit("4");
    assert("2"@[0] == '2' && "3"@[0] == '3' && "4"@[0] == '4');
    reveal_strlit("openrouter");
    reveal_strlit("https://openrouter.ai/api/v1");
    reveal_strlit("openai/gpt-4o-mini");
    reveal_strlit("ollama");
    reveal_strlit("http://localhost:11434/v1");
    reveal_strlit("llama3.2");
    reveal_strlit("custom");
    reveal_strlit("openai");
    reveal_strlit("https://api.openai.com/v1");
    reveal_strlit("gpt-4o-mini");
}

} // verus!
