//! Where the configuration is, and what it is where nothing else is said.

use crate::json;
use crate::models;
use crate::models::{
    AgentBehaviorConfig,
    AgentConfig,
    CompressionConfig,
    FileMemoryConfig,
    HeartbeatConfig,
    MemoryConfig,
    ModelConfig,
    ObserverConfig,
    ReviewConfig,
    SkillsConfig,
};
use crate::text;
use vstd::prelude::*;

verus! {

/// The name of the program.
pub const APP_NAME: &'static str = "mini-agent";

/// The name of the file that holds the configuration.
pub const CONFIG_FILENAME: &'static str = "config.toml";

// ---------------------------------------------------------------------------
// Paths
// ---------------------------------------------------------------------------

/// A path below another; one that begins at the root stands by itself.
pub open spec fn below(base: Seq<char>, name: Seq<char>) -> Seq<char> {
    if base.len() == 0 || (name.len() > 0 && name.first() == '/') {
        name
    } else if base.last() == '/' {
        base + name
    } else {
        base + "/"@ + name
    }
}

/// The directory of the configuration in the current directory.
pub open spec fn local_dir() -> Seq<char> {
    "."@ + APP_NAME@
}

/// The directory of the configuration in the home of the user, as far as that is known.
pub open spec fn global_dir(home: Option<Seq<char>>, profile: Option<Seq<char>>) -> Seq<char> {
    let base = match (home, profile) {
        (Some(h), _) => h,
        (None, Some(p)) => p,
        (None, None) => "."@,
    };
    below(base, local_dir())
}

/// The directory of the configuration that is in use: the local one if there is one.
pub open spec fn active_dir(
    has_local: bool,
    home: Option<Seq<char>>,
    profile: Option<Seq<char>>,
) -> Seq<char> {
    if has_local {
        local_dir()
    } else {
        global_dir(home, profile)
    }
}

/// A path below another.
pub fn join_path(base: &str, name: &str) -> (r: String)
    ensures
        r@ == below(base@, name@),
{
    proof {
        reveal_strlit("/");
        if text::begins(name@, "/"@) {
            assert(name@.subrange(0, 1)[0] == '/');
        } else if name@.len() > 0 && name@.first() == '/' {
            assert(name@.subrange(0, 1) =~= "/"@);
        }
    }
    if base.unicode_len() == 0 || text::starts_with(name, "/") {
        name.to_owned()
    } else {
        proof {
            if text::finishes(base@, "/"@) {
                assert(base@.subrange(base@.len() - 1, base@.len() as int)[0] == '/');
            } else if base@.last() == '/' {
                assert(base@.subrange(base@.len() - 1, base@.len() as int) =~= "/"@);
            }
        }
        if text::ends_with(base, "/") {
            text::concat2(base, name)
        } else {
            text::concat3(base, "/", name)
        }
    }
}

/// The directory of the configuration in the current directory.
pub fn local_config_dir() -> (r: String)
    ensures
        r@ == local_dir(),
{
    text::concat2(".", APP_NAME)
}

/// The configuration in the current directory, which takes precedence if there is one.
pub fn local_config_path() -> (r: String)
    ensures
        r@ == below(local_dir(), CONFIG_FILENAME@),
{
    join_path(local_config_dir().as_str(), CONFIG_FILENAME)
}

/// The directory of the configuration in the home of the user.
pub fn get_global_config_dir(home: Option<&str>, profile: Option<&str>) -> (r: String)
    ensures
        r@ == global_dir(json::opt_str(home), json::opt_str(profile)),
{
    let base: &str = match home {
        Some(h) => h,
        None => match profile {
            Some(p) => p,
            None => ".",
        },
    };
    join_path(base, local_config_dir().as_str())
}

/// The directory of the configuration that is in use.
pub fn get_config_dir(has_local: bool, home: Option<&str>, profile: Option<&str>) -> (r: String)
    ensures
        r@ == active_dir(has_local, json::opt_str(home), json::opt_str(profile)),
{
    if has_local {
        local_config_dir()
    } else {
        get_global_config_dir(home, profile)
    }
}

/// The configuration that is in use.
pub fn get_config_path(has_local: bool, home: Option<&str>, profile: Option<&str>) -> (r: String)
    ensures
        r@ == below(
            active_dir(has_local, json::opt_str(home), json::opt_str(profile)),
            CONFIG_FILENAME@,
        ),
{
    join_path(get_config_dir(has_local, home, profile).as_str(), CONFIG_FILENAME)
}

/// The directory for data.
pub fn get_data_dir(has_local: bool, home: Option<&str>, profile: Option<&str>) -> (r: String)
    ensures
        r@ == below(
            active_dir(has_local, json::opt_str(home), json::opt_str(profile)),
            "data"@,
        ),
{
    join_path(get_config_dir(has_local, home, profile).as_str(), "data")
}

/// The directory for skills.
pub fn get_skills_dir(has_local: bool, home: Option<&str>, profile: Option<&str>) -> (r: String)
    ensures
        r@ == below(
            active_dir(has_local, json::opt_str(home), json::opt_str(profile)),
            "skills"@,
        ),
{
    join_path(get_config_dir(has_local, home, profile).as_str(), "skills")
}

/// The file that holds the identity.
pub fn get_identity_path(has_local: bool, home: Option<&str>, profile: Option<&str>) -> (r: String)
    ensures
        r@ == below(
            active_dir(has_local, json::opt_str(home), json::opt_str(profile)),
            "identity.md"@,
        ),
{
    join_path(get_config_dir(has_local, home, profile).as_str(), "identity.md")
}

// ---------------------------------------------------------------------------
// Defaults
// ---------------------------------------------------------------------------

/// The settings of a model that are the same for every provider.
pub open spec fn usual_model(m: ModelConfig) -> bool {
    &&& m.max_tokens == 4096
    &&& m.temperature_permille == 700
    &&& m.top_p_permille == 1000
    &&& m.extra_headers@.len() == 0
    &&& m.timeout == 120
}

/// The settings of the memory, on or off.
pub open spec fn usual_memory(m: MemoryConfig, enabled: bool) -> bool {
    &&& m.enabled == enabled
    &&& m.semantic_search_top_k == 5
    &&& m.episodic_summary_threshold == 10
    &&& m.provider@ == "builtin"@
    &&& m.hybrid_search
}

/// The settings of the background tasks, on or off.
pub open spec fn usual_heartbeat(h: HeartbeatConfig, enabled: bool) -> bool {
    &&& h.enabled == enabled
    &&& h.interval_secs == 3600
    &&& text::texts(h.tasks@) == seq!["auto_summarize"@, "memory_cleanup"@]
}

/// The settings that are the same in every new configuration.
pub open spec fn usual_rest(c: AgentConfig) -> bool {
    &&& c.mcp_servers@.len() == 0
    &&& c.skills.enabled && c.skills.auto_create && c.skills.external_dirs@.len() == 0
    &&& c.agent.max_iterations == 30 && c.agent.enable_reasoning
    &&& c.observer.enabled && c.observer.kind@ == "log"@
    &&& c.file_memory.enabled && c.file_memory.memory_char_limit == 2200
    &&& c.file_memory.user_char_limit == 1375
    &&& c.compression.enabled && c.compression.threshold_permille == 500
    &&& c.compression.protect_first_n == 3 && c.compression.protect_last_n == 20
    &&& c.compression.summary_target_permille == 200
}

fn usual_tasks() -> (r: Vec<String>)
    ensures
        text::texts(r@) == seq!["auto_summarize"@, "memory_cleanup"@],
{
    let mut tasks: Vec<String> = Vec::new();
    tasks.push("auto_summarize".to_owned());
    tasks.push("memory_cleanup".to_owned());
    assert(text::texts(tasks@) =~= seq!["auto_summarize"@, "memory_cleanup"@]);
    tasks
}

/// A configuration for a model; everything that is not asked for is as usual.
pub fn new_config(
    provider: &str,
    model: &str,
    api_key: &str,
    base_url: &str,
    memory_enabled: bool,
    heartbeat_enabled: bool,
    review: ReviewConfig,
) -> (r: AgentConfig)
    ensures
        r.model.provider@ == provider@,
        r.model.model@ == model@,
        r.model.api_key@ == api_key@,
        r.model.base_url@ == base_url@,
        usual_model(r.model),
        usual_memory(r.memory, memory_enabled),
        usual_heartbeat(r.heartbeat, heartbeat_enabled),
        usual_rest(r),
        r.review == review,
{
    AgentConfig {
        model: ModelConfig {
            provider: provider.to_owned(),
            model: model.to_owned(),
            api_key: api_key.to_owned(),
            base_url: base_url.to_owned(),
            max_tokens: 4096,
            temperature_permille: 700,
            top_p_permille: 1000,
            extra_headers: Vec::new(),
            timeout: 120,
        },
        memory: MemoryConfig {
            enabled: memory_enabled,
            semantic_search_top_k: 5,
            episodic_summary_threshold: 10,
            provider: "builtin".to_owned(),
            hybrid_search: true,
        },
        mcp_servers: Vec::new(),
        skills: SkillsConfig { enabled: true, auto_create: true, external_dirs: Vec::new() },
        agent: AgentBehaviorConfig { max_iterations: 30, enable_reasoning: true },
        observer: ObserverConfig { enabled: true, kind: "log".to_owned() },
        heartbeat: HeartbeatConfig {
            enabled: heartbeat_enabled,
            interval_secs: 3600,
            tasks: usual_tasks(),
        },
        file_memory: FileMemoryConfig::default(),
        compression: CompressionConfig::default(),
        review,
    }
}

/// The configuration where there is no file; the key comes from the environment.
pub fn default_config(api_key: Option<&str>) -> (r: AgentConfig)
    ensures
        r.model.provider@ == "openai"@,
        r.model.model@ == "gpt-4o-mini"@,
        r.model.api_key@ == models::text_or_empty(json::opt_str(api_key)),
        r.model.base_url@ == "https://api.openai.com/v1"@,
        usual_model(r.model),
        usual_memory(r.memory, true),
        usual_heartbeat(r.heartbeat, false),
        usual_rest(r),
        r.review.enabled && r.review.interval == 10 && r.review.window_size == 8,
        r.review.max_tokens == 2048 && r.review.model_override is None,
{
    let key: String = match api_key {
        Some(k) => k.to_owned(),
        None => String::new(),
    };
    new_config(
        "openai",
        "gpt-4o-mini",
        key.as_str(),
        "https://api.openai.com/v1",
        true,
        false,
        ReviewConfig::default(),
    )
}

// ---------------------------------------------------------------------------
// What a configuration asks for
// ---------------------------------------------------------------------------

/// Whether the built-in memory is used: memory is on, and its provider is not `none`.
pub fn uses_builtin_memory(memory: &MemoryConfig) -> (r: bool)
    ensures
        r == (memory.enabled && memory.provider@ != "none"@),
{
    memory.enabled && !text::same(memory.provider.as_str(), "none")
}

/// Whether the memory files are used.
pub fn uses_file_memory(files: &FileMemoryConfig) -> (r: bool)
    ensures
        r == files.enabled,
{
    files.enabled
}

/// Whether events are logged: observing is on, and its kind is not `noop`.
pub fn logs_events(observer: &ObserverConfig) -> (r: bool)
    ensures
        r == (observer.enabled && observer.kind@ != "noop"@),
{
    observer.enabled && !text::same(observer.kind.as_str(), "noop")
}

/// The model that reviews conversations: the one that is set for it, or else the usual one.
pub fn review_model(review: &ReviewConfig, model: &str) -> (r: String)
    ensures
        r@ == match review.model_override {
            Some(m) => m@,
            None => model@,
        },
{
    match &review.model_override {
        Some(m) => m.clone(),
        None => model.to_owned(),
    }
}

// ---------------------------------------------------------------------------
// Laws
// ---------------------------------------------------------------------------

/// With a configuration in the current directory everything is kept there, whatever the home of
/// the user is.
pub proof fn law_local_configuration_wins(
    home: Option<Seq<char>>,
    profile: Option<Seq<char>>,
    other_home: Option<Seq<char>>,
    other_profile: Option<Seq<char>>,
)
    ensures
        active_dir(true, home, profile) == active_dir(true, other_home, other_profile),
        active_dir(true, home, profile) == local_dir(),
{
}

/// A path below a directory begins with the directory and ends with the name, with one slash
/// between them; a path from the root stands by itself, and so does one below nothing.
pub proof fn law_paths_are_put_together(base: Seq<char>, name: Seq<char>)
    ensures
        name.len() > 0 && name.first() == '/' ==> below(base, name) == name,
        below(Seq::empty(), name) == name,
        base.len() > 0 && base.last() != '/' && (name.len() == 0 || name.first() != '/') ==> {
            &&& below(base, name) == base + seq!['/'] + name
            &&& below(base + seq!['/'], name) == below(base, name)
        },
        text::finishes(below(base, name), name),
{
    reveal_strlit("/");
    assert("/"@ =~= seq!['/']);
    assert((base + seq!['/']).last() == '/');
    let p = below(base, name);
    assert(p.subrange(p.len() - name.len(), p.len() as int) =~= name);
}

/// Without a configuration in the current directory everything is kept in the home of the user,
/// else in the profile, else in the current directory, each time in a directory of the same name.
pub proof fn law_global_configuration(home: Seq<char>, profile: Option<Seq<char>>)
    ensures
        active_dir(false, Some(home), profile) == below(home, "."@ + APP_NAME@),
        profile is Some ==> active_dir(false, None, profile) == below(
            profile->0,
            "."@ + APP_NAME@,
        ),
        active_dir(false, None, None) == below("."@, "."@ + APP_NAME@),
        active_dir(true, Some(home), profile) == "."@ + APP_NAME@,
{
}

/// What is usual is usual in every setting: of the model, the memory and the background tasks.
pub proof fn law_usual_settings(m: ModelConfig, memory: MemoryConfig, h: HeartbeatConfig, on: bool)
    ensures
        usual_model(m) ==> m.max_tokens == 4096 && m.temperature_permille == 700
            && m.top_p_permille == 1000 && m.extra_headers@.len() == 0 && m.timeout == 120,
        usual_memory(memory, on) ==> memory.enabled == on && memory.semantic_search_top_k == 5
            && memory.episodic_summary_threshold == 10 && memory.provider@ == "builtin"@
            && memory.hybrid_search,
        usual_heartbeat(h, on) ==> h.enabled == on && h.interval_secs == 3600 && text::texts(
            h.tasks@,
        ) == seq!["auto_summarize"@, "memory_cleanup"@],
{
}

/// Whatever is not asked for in a new configuration is on: skills, reasoning, the log, the memory
/// files and compression; there are no servers and no directories of others.
pub proof fn law_usual_rest_is_on(c: AgentConfig)
    requires
        usual_rest(c),
    ensures
        c.mcp_servers@.len() == 0,
        c.skills.enabled && c.skills.auto_create && c.skills.external_dirs@.len() == 0,
        c.agent.max_iterations == 30 && c.agent.enable_reasoning,
        c.observer.enabled && c.observer.kind@ == "log"@,
        c.file_memory.enabled && c.file_memory.memory_char_limit == 2200
            && c.file_memory.user_char_limit == 1375,
        c.compression.enabled && c.compression.threshold_permille == 500
            && c.compression.protect_first_n == 3 && c.compression.protect_last_n == 20
            && c.compression.summary_target_permille == 200,
{
}

} // verus!
