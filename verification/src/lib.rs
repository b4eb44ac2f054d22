//! Core of MonkeyCLI, a command line assistant for a local Ollama server:
//! prompts, conversation state, stream decoding, workspace context and edit
//! plans, each with its contract.

pub mod cli;
pub mod diff;
pub mod ollama;
pub mod plan;
pub mod prompts;
pub mod session;
pub mod text;
pub mod workspace;

pub use cli::{
    fallback_model, one_shot_messages, preferred_model, resolve_host, smoke_test_messages,
    CliError,
};
pub use diff::{classify_diff_line, count_diff_stats, DiffLineKind};
pub use ollama::{ChatStream, Message, OllamaClient};
pub use plan::{
    action_label, agent_turn_messages, build_agent_prompt, count_actions, extract_json_object, file_operation,
    is_confirmation, normalize_path, preview_change, response_preview, ChangeAction,
    ChangePreview, EditPlan, FileChange, FileOperation, PlanError,
};
pub use prompts::{agent_system_prompt, system_prompt, Mode};
pub use session::{AgentAction, AgentSession, ReplAction, ReplSession};
pub use workspace::{
    is_supported_text_file, path_sorts_before, should_skip, sorted_path_order, trim_text,
    ContextBuilder,
};
