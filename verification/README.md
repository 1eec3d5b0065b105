# conga_core

The decision logic of the conga personal-assistant framework, written in
Verus and proved against its contracts.

- `src/` is the verified library: session ids and paths, the crash-safe
  JSONL event log (torn-tail healing, line-numbered corruption, fail-closed
  decoding), the gateway's connection loop and token check, tool assembly
  and the `bash` tool's plan and sandbox decisions, configuration layering,
  provider settings and the provider registry, the chat/stream conversions,
  the retrieval pipeline (the ingest run as a state machine, embedding
  batches and retries, index bookkeeping) and the session index.
- `tests/` exercises the library on concrete values.
- `app/` holds what Verus does not check: file I/O for the token, the
  configuration and the session store, the SQLite statements of the event
  store and the session index, the ingest run's driver, the `bash` tool's
  process run, and the serde copies of the library's configuration types.

Each module's header comment says what it decides and what it leaves to
its caller.
