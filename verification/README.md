# agent_workspace_api

The rules of a shared workspace for humans and coding agents: workspaces,
projects, members and roles, agent credentials and scopes, tasks and task
groups, notes, a document tree, assets, integration connections, search,
audit events and change polling.

- `src/` is the library, verified with Verus. Every request the API accepts
  is decided here: validation and its error answers, access by role or scope,
  the document tree (cycle detection, moves that keep it acyclic, cycle
  repair), the change history behind long polling, session and credential
  parsing, cookie and URL construction, paging, and the ordering of search
  results. The `law_*` proof functions state the properties that hold across
  calls (a published change is seen by a poll, a move never creates a cycle,
  an update never removes the last owner, only one listing of the cycles
  fits what detection promises, and so on).
- `app/` is the HTTP server around it: axum routing, SQL through sqlx, the
  GitHub OAuth exchange, files on disk, and the JSON forms of the library's
  types. It holds no rules of its own.
- `tests/` exercises the library on concrete values.
