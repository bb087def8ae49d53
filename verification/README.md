# rift_bus

The integration bus of the Rift terminal: the event envelope, the replay
ring, the PTY lane classifier, command capture, session logs and their
readers, idle compaction, restore snapshots, the filesystem and vault
watchers' decisions, the IPC framing, and the request/reply handling of the
LLM providers and the local model processes.

- `src/` — the library, verified with Verus. Each module states its
  behaviour in `requires`/`ensures` over spec models (`Seq`, `Map`, views);
  laws stated as public proof functions are named `lemma_*`; other
  properties are stated in the `ensures` of the functions they are about. Calls into outside crates (serde_json, serde_yaml, globset,
  getrandom, keyring, std's UTF-8 decoding) sit behind small trusted
  wrappers whose doc comments say what is assumed. Path and glob rules
  that differ by platform (`\` is a separator on Windows) are a parameter
  of the specs, and the functions that read the platform state their
  result for the rule in force.
- `app/` — the host runtime: the tokio broadcast bus, files on disk, the
  local-socket transport, HTTP clients, child processes, and the serde
  forms of the library's types.
- `tests/` — tests of the library through its public API.
