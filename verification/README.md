# minuet

A terminal chat client for language models that speak the OpenAI Responses
streaming protocol, with a small tool-calling agent loop. The logic is written
in Verus and proved against its contracts; the terminal, network and process
plumbing around it is ordinary Rust.

## Layout

- `src/` — the verified library.
  - `inference/` — the Responses wire format: server-sent-event framing
    (`sse`), the event stream state machine (`stream`), wire events and
    request bodies (`wire`), errors and endpoint handling (`backend`, `error`).
  - `agent_loop/` — the ReAct loop: rounds of inference and tool calls,
    their limits and progress events.
  - `session/` — transcripts and the in-memory session repository, with
    their commit rules.
  - `tool/` — tool definitions and the registry that routes calls.
  - `kernel.rs` — the state that serialises runs, commands and input.
  - `markdown.rs`, `markdown/` — Markdown text parsed into events (`parse`,
    with pulldown-cmark), events to styled blocks, wrapping and clipping at
    a width, code highlighting, control-character hygiene.
  - `editor.rs`, `layout.rs`, `preview.rs`, `render.rs`, `interaction.rs`,
    `command.rs`, `report.rs` — the decisions behind the terminal interface.
  - `config.rs`, `context.rs`, `model.rs`, `text.rs`, `unicode.rs`, `utf8.rs`,
    `json.rs` — configuration, prompt context, models and text helpers.
- `tests/` — tests of the library through its public interface.
- `app/` — the program: command line, configuration files, HTTP streaming,
  the async kernel task and the terminal user interface.
