use vstd::prelude::*;
use vstd::string::*;

use crate::ollama::{message_of, Message};
use crate::prompts::{spec_system_prompt, system_prompt, Mode};
use crate::text::{join_with_spaces, join_words, trim_ws, trimmed};

verus! {

/// Where the Ollama server is looked for when nothing else says.
pub open spec fn default_host() -> Seq<char> {
    "http://127.0.0.1:11434"@
}

/// The server address: the command line option, else the environment
/// (`OLLAMA_HOST`), else the local default.
pub fn resolve_host(cli_host: Option<String>, env_host: Option<String>) -> (r: String)
    ensures
        r@ == match cli_host {
            Some(h) => h@,
            None => match env_host {
                Some(h) => h@,
                None => default_host(),
            },
        },
{
    match cli_host {
        Some(h) => h,
        None => match env_host {
            Some(h) => h,
            None => String::from_str("http://127.0.0.1:11434"),
        },
    }
}

/// The model chosen without asking the server: the command line option, else a
/// non-blank `OLLAMA_MODEL`.
pub fn preferred_model(cli_model: Option<String>, env_model: Option<String>) -> (r: Option<String>)
    ensures
        match cli_model {
            Some(m) => r is Some && r->0@ == m@,
            None => match env_model {
                Some(m) => if trimmed(m@).len() > 0 {
                    r is Some && r->0@ == m@
                } else {
                    r is None
                },
                None => r is None,
            },
        },
{
    match cli_model {
        Some(m) => Some(m),
        None => match env_model {
            Some(m) => {
                if trim_ws(m.as_str()).as_bytes().len() > 0 {
                    Some(m)
                } else {
                    None
                }
            },
            None => None,
        },
    }
}

/// Model used when neither the options nor the server name one.
pub open spec fn default_model() -> Seq<char> {
    "llama3.1"@
}

/// The first local model of the server, else the default model.
pub fn fallback_model(first_local: Option<String>) -> (r: String)
    ensures
        r@ == match first_local {
            Some(m) => m@,
            None => default_model(),
        },
{
    match first_local {
        Some(m) => m,
        None => String::from_str("llama3.1"),
    }
}

/// Why a command line request is refused.
#[derive(Debug, PartialEq, Eq, Structural)]
pub enum CliError {
    /// The prompt words are blank.
    PromptMissing,
}

/// The conversation of a one-shot question: the system prompt of `mode`, then
/// the prompt words joined with spaces; refused when that prompt is blank.
pub fn one_shot_messages(mode: Mode, words: &Vec<String>) -> (r: Result<Vec<Message>, CliError>)
    ensures
        ({
            let prompt = join_words(words@.map_values(|w: String| w@));
            if trimmed(prompt).len() == 0 {
                r == Err::<Vec<Message>, CliError>(CliError::PromptMissing)
            } else {
                r matches Ok(ms) && ms@.map_values(|m: Message| m@) == seq![
                    message_of("system"@, spec_system_prompt(mode)),
                    message_of("user"@, prompt),
                ]
            }
        }),
{
    let prompt = join_with_spaces(words);
    if trim_ws(prompt.as_str()).as_bytes().len() == 0 {
        return Err(CliError::PromptMissing);
    }
    let mut messages: Vec<Message> = Vec::new();
    messages.push(Message::system(system_prompt(mode)));
    messages.push(Message::user(prompt.as_str()));
    assert(messages@.map_values(|m: Message| m@) =~= seq![
        message_of("system"@, spec_system_prompt(mode)),
        message_of("user"@, prompt@),
    ]);
    Ok(messages)
}

/// The conversation that checks that a model answers at all.
pub fn smoke_test_messages() -> (r: Vec<Message>)
    ensures
        r@.map_values(|m: Message| m@) == seq![
            message_of("system"@, "Tu reponds uniquement OK."@),
            message_of("user"@, "ping"@),
        ],
{
    let mut messages: Vec<Message> = Vec::new();
    messages.push(Message::system("Tu reponds uniquement OK."));
    messages.push(Message::user("ping"));
    assert(messages@.map_values(|m: Message| m@) =~= seq![
        message_of("system"@, "Tu reponds uniquement OK."@),
        message_of("user"@, "ping"@),
    ]);
    messages
}

} // verus!
