use vstd::prelude::*;
use vstd::string::*;

use crate::ollama::{message_of, Message, MessageView};
use crate::prompts::{spec_system_prompt, system_prompt, Mode};
use crate::text::{has_prefix, str_eq, strip_repeated_prefix, trim_start_matches, trim_ws, trimmed};

verus! {

/// The model named by a `/model <name>` line: what follows the command word(s),
/// trimmed.
pub open spec fn model_argument(line: Seq<char>) -> Seq<char> {
    trimmed(strip_repeated_prefix(line, "/model "@))
}

/// The line asks to leave.
pub open spec fn is_exit_command(line: Seq<char>) -> bool {
    line == "/exit"@ || line == "/quit"@
}

/// The line is a `/model ...` command.
pub open spec fn is_model_command(line: Seq<char>) -> bool {
    "/model "@.is_prefix_of(line)
}

/// What the agent loop does with one input line.
#[derive(Debug)]
pub enum AgentAction {
    /// Blank line, or `/model` without a name: nothing to do.
    Skip,
    /// `/exit` or `/quit`.
    Exit,
    /// `/help`.
    ShowHelp,
    /// `/model <name>`: the active model is now `<name>`.
    ModelChanged,
    /// Anything else: a change request for the model, trimmed.
    Run(String),
}

/// State of the agent prompt loop: the active model.
pub struct AgentSession {
    model: String,
}

impl View for AgentSession {
    type V = Seq<char>;

    closed spec fn view(&self) -> Seq<char> {
        self.model@
    }
}

impl AgentSession {
    /// A session that starts with `model` active.
    pub fn new(model: &str) -> (r: AgentSession)
        ensures
            r@ == model@,
    {
        AgentSession { model: model.to_owned() }
    }

    /// The active model.
    pub fn model(&self) -> (r: &str)
        ensures
            r@ == self@,
    {
        self.model.as_str()
    }

    /// Interprets one input line of the agent loop.
    pub fn handle_line(&mut self, input: &str) -> (a: AgentAction)
        ensures
            ({
                let line = trimmed(input@);
                if line.len() == 0 {
                    a is Skip && final(self)@ == old(self)@
                } else if is_exit_command(line) {
                    a is Exit && final(self)@ == old(self)@
                } else if line == "/help"@ {
                    a is ShowHelp && final(self)@ == old(self)@
                } else if is_model_command(line) {
                    if model_argument(line).len() > 0 {
                        a is ModelChanged && final(self)@ == model_argument(line)
                    } else {
                        a is Skip && final(self)@ == old(self)@
                    }
                } else {
                    a matches AgentAction::Run(r) && r@ == line && final(self)@ == old(self)@
                }
            }),
    {
        let line = trim_ws(input);
        if line.as_bytes().len() == 0 {
            return AgentAction::Skip;
        }
        if str_eq(line, "/exit") || str_eq(line, "/quit") {
            return AgentAction::Exit;
        }
        if str_eq(line, "/help") {
            return AgentAction::ShowHelp;
        }
        if has_prefix(line, "/model ") {
            let next = trim_ws(trim_start_matches(line, "/model "));
            if next.as_bytes().len() > 0 {
                self.model = next.to_owned();
                return AgentAction::ModelChanged;
            }
            return AgentAction::Skip;
        }
        AgentAction::Run(line.to_owned())
    }
}

/// What the chat REPL does with one input line.
#[derive(Debug)]
pub enum ReplAction {
    /// Blank line, or `/model` without a name: nothing to do.
    Skip,
    /// `/exit` or `/quit`.
    Exit,
    /// `/help`.
    ShowHelp,
    /// `/clear`: the history is back to the system prompt.
    Cleared,
    /// `/model <name>`: the active model is now `<name>`.
    ModelChanged,
    /// `/models`: list the local models.
    ListModels,
    /// Anything else: the line was added to the history as a user message; the
    /// history is to be sent to the model.
    Ask,
}

/// Abstract state of a chat REPL.
pub struct ReplView {
    pub mode: Mode,
    pub model: Seq<char>,
    pub history: Seq<MessageView>,
}

/// State of the chat REPL: the mode, the active model and the conversation so
/// far, which always opens with the system prompt of the mode.
pub struct ReplSession {
    mode: Mode,
    model: String,
    history: Vec<Message>,
}

/// The history of a fresh (or cleared) conversation in `mode`.
pub open spec fn initial_history(mode: Mode) -> Seq<MessageView> {
    seq![message_of("system"@, spec_system_prompt(mode))]
}

/// The history opens with the system prompt of the mode, and no later message
/// is a system message.
pub open spec fn repl_well_formed(v: ReplView) -> bool {
    &&& v.history.len() >= 1
    &&& v.history[0] == initial_history(v.mode)[0]
    &&& forall|i: int| 1 <= i < v.history.len() ==> v.history[i].role != "system"@
}

impl View for ReplSession {
    type V = ReplView;

    closed spec fn view(&self) -> ReplView {
        ReplView {
            mode: self.mode,
            model: self.model@,
            history: self.history@.map_values(|m: Message| m@),
        }
    }
}

impl ReplSession {
    /// The history always opens with the system prompt of the mode, and holds
    /// no other system message.
    #[verifier::type_invariant]
    closed spec fn history_opens_with_system_prompt(self) -> bool {
        repl_well_formed(self@)
    }

    /// A conversation in `mode` with `model` active and only the system prompt.
    pub fn new(model: &str, mode: Mode) -> (r: ReplSession)
        ensures
            r@.mode == mode,
            r@.model == model@,
            r@.history == initial_history(mode),
            repl_well_formed(r@),
    {
        let mut history: Vec<Message> = Vec::new();
        history.push(Message::system(system_prompt(mode)));
        let r = ReplSession { mode, model: model.to_owned(), history };
        assert(r@.history =~= initial_history(mode));
        r
    }

    /// The active model.
    pub fn model(&self) -> (r: &str)
        ensures
            r@ == self@.model,
    {
        self.model.as_str()
    }

    /// The conversation so far; it always opens with the system prompt of the
    /// mode, and holds no other system message.
    pub fn history(&self) -> (r: &Vec<Message>)
        ensures
            r@.map_values(|m: Message| m@) == self@.history,
            repl_well_formed(self@),
    {
        proof {
            use_type_invariant(self);
        }
        &self.history
    }

    /// Interprets one input line of the REPL.
    pub fn handle_line(&mut self, input: &str) -> (a: ReplAction)
        ensures
            repl_well_formed(final(self)@),
            final(self)@.mode == old(self)@.mode,
            ({
                let line = trimmed(input@);
                let before = old(self)@;
                let after = final(self)@;
                if line.len() == 0 {
                    a is Skip && after == before
                } else if is_exit_command(line) {
                    a is Exit && after == before
                } else if line == "/help"@ {
                    a is ShowHelp && after == before
                } else if line == "/clear"@ {
                    a is Cleared && after.model == before.model && after.history == initial_history(
                        before.mode,
                    )
                } else if is_model_command(line) {
                    if model_argument(line).len() > 0 {
                        a is ModelChanged && after.model == model_argument(line) && after.history
                            == before.history
                    } else {
                        a is Skip && after == before
                    }
                } else if line == "/models"@ {
                    a is ListModels && after == before
                } else {
                    a is Ask && after.model == before.model && after.history
                        == before.history.push(message_of("user"@, line))
                }
            }),
    {
        proof {
            use_type_invariant(&*self);
        }
        let line = trim_ws(input);
        if line.as_bytes().len() == 0 {
            return ReplAction::Skip;
        }
        if str_eq(line, "/exit") || str_eq(line, "/quit") {
            return ReplAction::Exit;
        }
        if str_eq(line, "/help") {
            return ReplAction::ShowHelp;
        }
        if str_eq(line, "/clear") {
            let mut history: Vec<Message> = Vec::new();
            history.push(Message::system(system_prompt(self.mode)));
            self.history = history;
            assert(self@.history =~= initial_history(self@.mode));
            return ReplAction::Cleared;
        }
        if has_prefix(line, "/model ") {
            let next = trim_ws(trim_start_matches(line, "/model "));
            if next.as_bytes().len() > 0 {
                self.model = next.to_owned();
                return ReplAction::ModelChanged;
            }
            return ReplAction::Skip;
        }
        if str_eq(line, "/models") {
            return ReplAction::ListModels;
        }
        proof {
            reveal_strlit("user");
            reveal_strlit("system");
            assert("user"@.len() != "system"@.len());
        }
        self.append_message(Message::user(line));
        ReplAction::Ask
    }

    /// Appends `m` to the history.
    fn append_message(&mut self, m: Message)
        requires
            m@.role != "system"@,
        ensures
            final(self)@.mode == old(self)@.mode,
            final(self)@.model == old(self)@.model,
            final(self)@.history == old(self)@.history.push(m@),
    {
        proof {
            use_type_invariant(&*self);
        }
        let mut current = ReplSession::new("", self.mode);
        std::mem::swap(self, &mut current);
        let ReplSession { mode, model, mut history } = current;
        history.push(m);
        assert(history@.map_values(|x: Message| x@) =~= old(self)@.history.push(m@));
        *self = ReplSession { mode, model, history };
        assert(self@.history =~= old(self)@.history.push(m@));
    }

    /// Adds the model's answer to the conversation.
    pub fn record_answer(&mut self, answer: &str)
        ensures
            repl_well_formed(final(self)@),
            final(self)@.mode == old(self)@.mode,
            final(self)@.model == old(self)@.model,
            final(self)@.history == old(self)@.history.push(message_of("assistant"@, answer@)),
    {
        proof {
            use_type_invariant(&*self);
        }
        proof {
            reveal_strlit("assistant");
            reveal_strlit("system");
            assert("assistant"@.len() != "system"@.len());
        }
        self.append_message(Message::assistant(answer));
    }
}

} // verus!
