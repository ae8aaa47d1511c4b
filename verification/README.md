# kod_core

The decision and text-shaping core of the KOD coding agent, written in
Verus: every function in `src/` carries a contract, and the laws the
engine relies on are proved as public proof functions (`law_*`).

- `src/` — the verified library, one module per concern: `markers`
  (the streaming protocol), `goals`, `history`, `agent_loop`, `round`,
  `round_run` (the order a round runs its calls in), `lifecycle`,
  `summary` and `triage` (tool results), `advisor` (questions put to the
  decision model and what is made of the answers), `routing`, `at_refs`,
  `hooks`, `diagnostics`, `session`, `fixture`, `plan`, `render`, `jev`,
  `json` and `text`.
- `tests/` — tests of the library on concrete values.
- `app/` — the I/O around it: fixture files, reading `@path`
  references, running hook shells, the decision-model client, and the
  drivers that run the agent's loops and a round's calls.
