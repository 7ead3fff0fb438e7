# auger

A coding agent: a session harness that drives a language model through a
conversation with tool calls, the built-in tools it offers the model, a
client for the Anthropic Messages API, session traces, and a terminal chat
client. The library is written in Verus; its functions carry contracts that
Verus proves.

## Layout

- `src/` — the verified library.
  - Conversation and driver: `provider` (messages, blocks, stream events and
    their folding), `agent` (the typed agent state machine, restore),
    `tool_batch` (tool calls waiting for results), `record` (the session
    record and what restoring it gives), `harness` (the session loop's
    decisions: state and message in, state and effects out), `dummy` (a
    scripted provider).
  - Tools: `shell_syntax` and `shell_policy` (which shell commands run
    without asking), `path`, `tools` (grep, list_files, shell, todo list,
    dummy; the pattern check of grep), `tool_defs` (names, descriptions and
    argument schemas), `web` (parsing a page and its visible text, fetch
    answers).
  - Model API: `anthropic` (request bodies, error classification, response
    and stream decoding), `json`.
  - Traces: `traces` (trace records, trace paths, reading traces back).
  - Terminal client: `command`, `completion`, `tui` (server events), `chat`
    (the client's state), `keys` (what each key does), `server` (the server's
    replies about sessions), `transcript` and `screen` (the rows on screen), `layout`,
    `markdown`, `tool_view`, `tool_render`, `diff_render`, `text`.
- `tests/` — tests of the library.
- `app/` — the terminal client program and the I/O around the library:
  terminal and HTTP (`main`, `api`, `ui`), the session loop on the async
  runtime (`session`), the tools' file-system, process and network work
  (`tools`), and the Anthropic HTTP client (`anthropic`).

Calls into `serde_json`, `yash-syntax`, `comrak`, `scraper`, `grep`,
`syntect`, `similar`, `unicode-width`, `uuid` and `chrono` stand in the library behind small trusted
wrappers whose contracts say what the library relies on.
