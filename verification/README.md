# devforge

The agent core of the DevForge editor: agent assets (skills, MCP servers,
subagents, rules, commands, hooks), the tool-calling agent loop, the
OpenAI-compatible provider protocol, MCP framing, chat sessions, settings
helpers and the SSH config reader.

- `src/` is the library, written in Verus. Every function carries a contract,
  and the laws the library keeps (round trips, what a rewrite reads back, the
  shadowing of user assets by project assets, the bounds of titles and
  truncations, ...) stand there as public proof functions named `law_*`.
- `tests/` exercises the library on concrete inputs.
- `app/` is the ordinary Rust around it: file system and process I/O, the
  HTTP transport, the MCP stdio sessions, persistence with serde, and the loop
  that drives the agent state machine.
