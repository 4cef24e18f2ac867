# mini-agent

An agent for language models: it talks to a chat-completions service, runs tools, remembers facts
across sessions, compresses long conversations, and loads skills.

- `src/` is the library. Everything the agent decides or computes stands there, with contracts that
  Verus proves: the turn of the agent (`agent`), replies and streams (`llm`), compression
  (`compression`), memory (`memory`, `file_memory`, `memory_reviewer`, `session_search`), tools and
  hooks (`tool`, `tool_registry`, `schema`, `hooks`), servers of the Model Context Protocol
  (`mcp`), skills and identity (`skill`, `identity`), and the command line (`repl`, `config`,
  `heartbeat`, `observer`).
  `text`, `bytes`, `number`, `json` and `unicode` are what these are built on.
- Laws that relate several functions are proof functions named `law_..`, at the end of each module.
- `app/` is the program around the library: files, the database, the network, processes and threads.
- `tests/` runs the library on concrete values.
