# dune_admin

The decision-making core of a Dune dedicated-server manager, written in
Verus: every function in `src/` carries a contract that Verus proves.

- `src/text.rs` — text models (trim, ASCII case, substrings, decimal
  rendering, splitting) and their executable counterparts.
- `src/json.rs` — JSON string literals as `serde_json` writes them.
- `src/clock.rs` — the system clock and RFC 3339 times, read without
  panicking: a clock before 1970 or an unrepresentable time gives `None`.
- `src/catalog.rs`, `src/catalog_laws.rs` — item catalog validation,
  canonical ordering and JSON, content hash, diff, the catalog in force,
  and the laws that hold of them (ordering is a sorted permutation and
  idempotent; a diff adds and removes exactly the ids one side lacks,
  lists each change once in id order, mirrors itself when the sides are
  swapped, and is empty for a catalog compared with itself; summaries do
  not depend on order; a stored or exported catalog reads back as itself).
- `src/players.rs`, `src/admin.rs` — specialization tracks and levels,
  player search parameters, and the checks the admin endpoints make.
- `src/flow.rs`, `src/handlers.rs` — the grant, specialization and
  welcome-whisper handlers as step functions (state and answer in, next
  state and action out), with the laws every run obeys: nothing is asked
  for after a refusal or an answer, and the change and its record happen
  at most once, the record only after the change.
- `src/battlegroup.rs`, `src/status.rs`, `src/components.rs` —
  battlegroup readiness and status, host metrics, package versions,
  discovered servers, and pod/operator component health (with the law
  that decides a pod group's Ready/Problem/Starting state).
- `src/mq.rs` — message-queue command envelopes and publish expressions.
- `src/remote.rs`, `src/paths.rs` — shell quoting (with the law that a
  quoted word reads back as its value), command failures, runner
  decisions, request paths and URL encoding.

The bundled item catalog in `src/catalog.rs` is a small table: the two
sentinel items every catalog must keep and ten common items. A
deployment's full item table is not part of this crate; it is applied as
an override catalog.

`app/` holds the unverified edge: reading `kubectl` JSON into the
library's types, Kubernetes quantity parsing (floating point), and the
serializable rows shown to the desktop. `tests/` exercises the library.
