# nala

A general-purpose assistant: a request goes to a language model, and the
tool calls the model asks for (shell commands, web search, page fetches,
MCP servers, connected devices) are run until it answers.

- `src/` is the library, verified with Verus: the agent loop
  (`assistant`, `turn`), tool routing (`dispatch`, `device`, `mcp`), the
  context budget, the transcript and durable memory, the built-in tools'
  text processing (`web_search`, `fetch_url`, `weather`, `url`, `text`),
  narration, autonomous events and the metrics report. Outside services
  (the model, HTTP, the computer, the clock) are reached through the traits
  in `ports`.
- `app/` is the `nala` program: the REPL, the WebSocket session server, the
  device listener, and the adapters that implement the ports.
- `tests/` exercises the library through its public API.
