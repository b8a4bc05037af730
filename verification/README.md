# aldrava

A typed comment-command dispatcher for GitHub Actions. A `/command` left on a
pull request is a knock: it is matched against a registered command catalog,
the knocker's trust is resolved, and only when both hold is a target
dispatched (an idempotent relabel, a `workflow_dispatch` or a
`repository_dispatch`).

## Layout

- `src/` — the verified library.
  - `spec.rs`: permission tiers, dispatch targets, commands, catalogs.
  - `spec_lisp.rs`: the `(defcommentcommand ...)` catalog reader (tokens,
    S-expressions, the semantic walk), specified as `parse_spec`.
  - `round_trip.rs`: what the reader gives back of catalogs written in the
    canonical layout.
  - `event.rs`: the inbound GitHub event (from its payload or its JSON
    text) and the downstream run context.
  - `environment.rs`: the `Environment` seam, the in-memory
    `MockEnvironment`, and the GitHub REST URLs, bodies and responses.
  - `interp.rs`: the interpreter and its laws (trust, trigger matching,
    argument capture, no mutation without trust, an error only after a
    failed call).
  - `steps.rs`: the interpreter one step at a time, for a driver that makes
    the environment's calls itself; `apply` and the command line both walk
    these steps.
  - `cli.rs`: the inline single-command flags and the JSON reports.
  - `json.rs`, `text.rs`: JSON values (parsed by `serde_json`) and
    character-level helpers.
- `app/main.rs` — the command line: flags, files, environment variables, and
  the `Environment` that makes the HTTP calls to GitHub.
- `tests/` — examples for every module.
