# forge_egui

The model and the decisions of the Forge egui widget kit, verified with
Verus. Each widget's data (builders, options, state) and what it decides
(what a click or key does, what a prompt answers, what a diff keeps, how a
flowchart layers its nodes, how markdown becomes blocks) are stated in
`requires`/`ensures` contracts over mathematical models and proved.

Layout:

- `src/` — the verified library, one module per widget family:
  `primitives`, `structure`, `overlays`, `chat`, `code`, `markdown`,
  `flowchart`, `node_graph`, `blocks`, `data`, `term`, plus `strs`
  (string helpers) and `tone`.
- `tests/` — tests of the library on concrete values.
- `app/` — the egui side that works in floating-point points: node-graph
  canvas geometry, flowchart placement, terminal cell metrics and colours,
  the painting of a terminal session's screen and status overlay, and the
  per-frame drivers that feed the session, the grid debounce, captured
  input and canvas clicks through the library's decisions.

Outside crates: `pulldown-cmark` reads CommonMark into events (the fold of
events into blocks is verified), `vt100` holds the terminal screen, and
`egui` is used by `app/`.
