# ai-agent

The core of an AI agent, written and verified in Verus, with an ordinary Rust
program around it.

- `src/` is the library. It holds everything that decides: branches of a
  conversation and how they merge, when a conversation is compacted, the safety
  stages, the routing of tool calls, the order in which providers are asked, the
  steps of the agent loop, and what the terminal, the full-screen interface and
  the web server show and answer. Each function states in its contract what it
  returns; properties that span functions are public proof functions named
  `law_*`.
- `app/` performs what the library decides: HTTP requests, processes, sockets,
  the terminal, files, the vector memory.
- `tests/` runs the library on concrete values.

A few calls go to outside crates: UUIDs (`uuid`), reading JSON (`serde_json`),
Base64 (`base64`) and the sign-in address and state (`oauth2`). What is taken
for granted of them stands in the contract of one wrapper each.

## Modules

| Module | Subject |
|--------|---------|
| `types`, `json`, `text` | messages, JSON values, text |
| `context` | branches, merging, compaction |
| `stream`, `wire`, `provider` | chunks, requests, failover |
| `safety`, `hooks`, `tool_routing` | what may run, and what runs; the tools for files |
| `agent`, `orchestrator` | one agent, several agents |
| `config`, `cli`, `tui`, `backend`, `memory` | settings, interfaces, sign-in, recall |
