//! The bot's settings, loaded once and then passed around unchanged.
use vstd::prelude::*;
use std::collections::HashMap;

verus! {

#[verifier::external_type_specification]
#[verifier::external_body]
pub struct ExPathBuf(std::path::PathBuf);

/// Credentials and endpoints.
pub struct Authentication {
    pub discord_token: Option<String>,
    pub openai_api_server: Option<String>,
    pub openai_api_key: Option<String>,
}

/// A local model.
pub struct Model {
    pub path: std::path::PathBuf,
    pub context_token_length: usize,
    /// Whether to run the model on the GPU.
    pub use_gpu: bool,
    /// How many layers to offload to the GPU, when it is used; all of them
    /// when unset.
    pub gpu_layers: Option<usize>,
}

/// Settings of the chat platform side.
pub struct Discord {
    /// The least time between two edits of a render's messages; low values
    /// get the bot throttled.
    pub message_update_interval_ms: u64,
    /// Whether an escaped `\n` in a prompt becomes a line break.
    pub replace_newlines: bool,
}

impl Default for Discord {
    fn default() -> (r: Self)
        ensures
            r.message_update_interval_ms == 1000,
            r.replace_newlines,
    {
        Discord { message_update_interval_ms: 1000, replace_newlines: true }
    }
}

/// A command that answers a prompt with a model.
pub struct Command {
    pub enabled: bool,
    pub description: String,
    pub system_prompt: String,
}

/// All of the settings.
pub struct Configuration {
    pub authentication: Authentication,
    /// The prompt commands, by name.
    pub commands: HashMap<String, Command>,
    pub discord: Discord,
}

impl Default for Configuration {
    fn default() -> (r: Self)
        ensures
            r.authentication.discord_token is None,
            r.authentication.openai_api_server is None,
            r.authentication.openai_api_key is None,
            r.discord.message_update_interval_ms == 1000,
            r.discord.replace_newlines,
    {
        let mut commands: HashMap<String, Command> = HashMap::new();
        commands.insert(
            "ask".to_string(),
            Command {
                enabled: false,
                description: "Responds to the provided instruction.".to_string(),
                system_prompt: "You are a helpful assistant.".to_string(),
            },
        );
        Configuration {
            authentication: Authentication {
                discord_token: None,
                openai_api_server: None,
                openai_api_key: None,
            },
            commands,
            discord: Discord::default(),
        }
    }
}

/// The names in `names`, as texts.
pub open spec fn name_set(names: Seq<String>) -> Set<Seq<char>> {
    names.map_values(|n: String| n@).to_set()
}

fn holds_name(names: &Vec<String>, name: &String) -> (r: bool)
    ensures
        r == name_set(names@).contains(name@),
{
    let ghost views = names@.map_values(|n: String| n@);
    let mut i: usize = 0;
    while i < names.len()
        invariant
            i <= names@.len(),
            views == names@.map_values(|n: String| n@),
            forall|j: int| 0 <= j < i ==> views[j] != name@,
        decreases names@.len() - i,
    {
        if names[i] == *name {
            assert(views[i as int] == name@);
            return true;
        }
        i += 1;
    }
    assert(!views.contains(name@));
    false
}

fn all_held(names: &Vec<String>, others: &Vec<String>) -> (r: bool)
    ensures
        r == name_set(names@).subset_of(name_set(others@)),
{
    let ghost views = names@.map_values(|n: String| n@);
    let mut i: usize = 0;
    while i < names.len()
        invariant
            i <= names@.len(),
            views == names@.map_values(|n: String| n@),
            forall|j: int| 0 <= j < i ==> name_set(others@).contains(#[trigger] views[j]),
        decreases names@.len() - i,
    {
        if !holds_name(others, &names[i]) {
            assert(name_set(names@).contains(views[i as int]));
            return false;
        }
        i += 1;
    }
    assert forall|n: Seq<char>| name_set(names@).contains(n) implies name_set(others@).contains(n) by {
        let j = choose|j: int| 0 <= j < views.len() && views[j] == n;
    }
    true
}

/// Whether the commands registered with the chat platform differ from the
/// configured ones as sets of names, in which case the registrations are
/// reset before the configured commands are registered again.
pub fn commands_need_reset(registered: &Vec<String>, configured: &Vec<String>) -> (r: bool)
    ensures
        r == (name_set(registered@) != name_set(configured@)),
{
    let forward = all_held(registered, configured);
    let backward = all_held(configured, registered);
    proof {
        if forward && backward {
            assert(name_set(registered@) =~= name_set(configured@));
        }
    }
    !(forward && backward)
}

} // verus!
