# local-llm

Manages a local LLM stack of llama-swap and llama.cpp: one TOML file in, a llama-swap
configuration and a systemd environment file out, with a daemon that keeps them up to
date and an operator CLI.

- `src/` is the library, verified with Verus. It holds what the stack decides and
  computes: validation (`schema`, `addr`), the generated artifacts (`swap`, `shell`, `order`,
  `yaml`), the daemon's state and reactions (`state`, `daemon`), the control socket's
  protocol (`server`, `client`), resource sampling (`monitor`, `json`) and what the CLI
  does and prints (`cli`, `configure`). `text` and `runtime` are shared by them.
- `app/` is the binary around it: files, sockets, child processes, threads and the
  serde and clap types. Called as `local-llm-resourced` it is the daemon, else the CLI.
- `tests/` runs the library.

The library calls `serde_yaml` and `serde_json`, and a few functions of the standard
library, through declarations whose contracts are taken on trust; each says above it
what it claims.
