# geo-core

The verified core of the Memeloop GEO platform: tenant scopes, project setup
and atomic project start, the enterprise knowledge store (imports, uploads,
releases, evidence search), the agent conversation store, sessions and the
request-level rules of the HTTP boundary.  Every function of the library
carries a Verus contract and is proved against it.

## Layout

- `src/` — the library, one Verus module per concern:
  - `ids`, `error`, `text`, `digest`, `rules`, `clock`, `sorting`: identifiers
    and scopes, typed errors, text and digest helpers, shared validation rules,
    time, and stable sorted listings.
  - `project`, `schedule`, `project_store`, `project_patch`: project settings,
    report calendars, the project store with optimistic revisions and atomic
    start, and the PATCH body.
  - `knowledge`, `knowledge_store`: sources, versions, chunks, releases,
    upload sessions and evidence-only search and answers.
  - `agent`, `agent_store`, `agent_http`, `runtime`: conversations, turns, runs,
    checkpoints and the tool-call ledger; the agent routes' scope and event
    cursor rules; the run executor and host-op failure vocabulary.
  - `auth`, `context`, `login`, `idempotency`, `api`, `config`: operators,
    users, memberships and sessions; origin, host, cookie and tenant-selector
    rules; sign-in; idempotent commands; handler decisions; configuration
    switches.
- `tests/` — tests of the library against concrete values.
- `app/` — the HTTP server (axum and tokio): reads requests into plain values,
  calls the library, and renders JSON and event streams.

Outside crates are reached from `src/` only through small trusted wrappers
whose contracts state what the crate documents.
