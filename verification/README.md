# session_usage

Token accounting for a session of cooperating agent threads, and the decision
logic of the `wait_agent` tool, verified with Verus.

- `src/` is the verified library: token counters with saturating arithmetic,
  per-agent usage split by model, the session ledger driven by server
  notifications, the usage dashboard as lines of text, the application state
  around the ledger, and the `wait_agent` timeouts and answers as a state
  machine.
- `app/` is the unverified shell: async waiting with tokio, the metadata read
  with its timeout, serde parsing of tool arguments, and terminal rendering
  with ratatui.
- `tests/` runs the library on concrete sessions.
