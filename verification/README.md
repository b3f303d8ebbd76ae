# project_application

The rules of a local planning engine, verified with Verus: how commands are
admitted, replayed and recorded; how source documents are drafted, written,
recovered and deleted; how projections, events, views and queries are
bounded; how tags, focus, counters, roots and registrations behave.

- `src/` is the verified library. Each module holds one area of rules, with
  its contracts, the laws proved of it, and the few trusted wrappers around
  `uuid`, `chrono`, `chrono-tz`, `getrandom`, `sha2`, `serde_json` and std
  that the rules call.
- `tests/` runs the library on concrete values.
- `app/` is the unverified layer around it: JSON envelopes, failure logging,
  the Git subprocess, SQLite glue for the command journal (schema creation
  and migration, intake, recording, restores, history and command
  retention), and the loop that performs a conditional write's outside work
  while the library's step function decides each next step.
