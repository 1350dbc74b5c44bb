# Cordy

A terminal coding agent whose core is verified with Verus.

- `src/` is the library: the canonical conversation model, the agent loop, the provider adapters
  (OpenAI Chat Completions and compatible endpoints, OpenAI Responses, Anthropic Messages), the
  builtin tools, the patch engine, permissions, goals, sessions and configuration. Every function
  works on plain values and carries a contract that Verus proves. What the library takes from other
  crates (JSON, TOML, regular expressions, URLs, SHA-256, base64, diffs, versions, randomness) goes
  through a few small wrappers, whose contracts say what is believed of those crates.
- `app/` is the program around it: the terminal, files, processes, the network and the clock. It
  performs what the library decides.
- `tests/` runs the library against concrete conversations, patches, streams and files.

| Module | What it holds |
| --- | --- |
| `engine` | types, agent loop, stream events, goals, sessions, permissions, prompts, checkpoints, login |
| `provider` | one adapter per API family, retries, and the laws that hold across the families |
| `tools` | registry, builtins, patch engine, output optimizer, sub-agents |
| `config`, `skills`, `agents`, `mcp` | configuration layers and the sources of tools |
| `json`, `text`, `bytes`, `paths`, `patterns`, `urls`, `table`, `pairs`, `frontmatter` | foundations |
