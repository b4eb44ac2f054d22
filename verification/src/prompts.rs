use vstd::prelude::*;

verus! {

/// Conversation flavour of a chat or REPL session.
#[derive(Clone, Copy, Debug, PartialEq, Eq, Structural)]
pub enum Mode {
    Assistant,
    Code,
}

/// System prompt text of each mode.
pub open spec fn spec_system_prompt(mode: Mode) -> Seq<char> {
    match mode {
        Mode::Assistant => "Tu es MonkeyCLI, un assistant technique concis et utile. Tu reponds clairement, avec des etapes concretes quand c'est pertinent."@,
        Mode::Code => "Tu es MonkeyCLI en mode code. Tu aides a concevoir, corriger et generer du code propre. Tu privilegies les reponses actionnables, courtes et techniques."@,
    }
}

/// The system prompt that opens every conversation in `mode`.
pub fn system_prompt(mode: Mode) -> (r: &'static str)
    ensures
        r@ == spec_system_prompt(mode),
{
    match mode {
        Mode::Assistant => "Tu es MonkeyCLI, un assistant technique concis et utile. Tu reponds clairement, avec des etapes concretes quand c'est pertinent.",
        Mode::Code => "Tu es MonkeyCLI en mode code. Tu aides a concevoir, corriger et generer du code propre. Tu privilegies les reponses actionnables, courtes et techniques.",
    }
}

/// Instructions that make the model answer with a JSON edit plan.
pub open spec fn spec_agent_system_prompt() -> Seq<char> {
    "Tu es MonkeyCLI en mode agent. Tu dois proposer des modifications de fichiers pour le workspace courant. Tu dois repondre avec du JSON strict uniquement, sans markdown, sans explication autour. Le JSON doit respecter ce schema exact: {\"summary\": string, \"changes\": [{\"path\": string, \"action\": \"create\"|\"update\"|\"delete\", \"content\"?: string, \"note\"?: string}]}. Pour create et update, fournis le contenu complet final du fichier dans content. Pour delete, omets content. Ne modifie que les fichiers utiles et garde les changements minimaux."@
}

/// The system prompt of agent mode: it asks for a strict JSON edit plan.
pub fn agent_system_prompt() -> (r: &'static str)
    ensures
        r@ == spec_agent_system_prompt(),
{
    "Tu es MonkeyCLI en mode agent. Tu dois proposer des modifications de fichiers pour le workspace courant. Tu dois repondre avec du JSON strict uniquement, sans markdown, sans explication autour. Le JSON doit respecter ce schema exact: {\"summary\": string, \"changes\": [{\"path\": string, \"action\": \"create\"|\"update\"|\"delete\", \"content\"?: string, \"note\"?: string}]}. Pour create et update, fournis le contenu complet final du fichier dans content. Pour delete, omets content. Ne modifie que les fichiers utiles et garde les changements minimaux."
}

} // verus!
