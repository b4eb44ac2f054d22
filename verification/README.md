# monkeycli

A command line assistant for a local Ollama server: one-shot questions, a chat
REPL, and an agent mode that asks the model for a JSON edit plan on the current
workspace, previews it as diffs and applies it once confirmed.

- `src/` is the verified library (Verus): prompts, chat messages, the decoder of
  streamed answers, the REPL and agent command state machines, the workspace
  context builder, JSON plan extraction, diff statistics, plan previews and the
  file operations that apply a plan.
- `app/` is the program around it: argument parsing, HTTP requests to Ollama,
  terminal output and file system access.
- `tests/` runs the library on concrete inputs.
