# blinc_canvas_kit

Interactive canvas toolkit for 2D editors and 3D scene viewers, built on
`blinc_core`: selection, pointer interaction, hit testing, spatial
indexing, primitive meshes, an immediate-mode painter and a sketch runner.

## Layout

- `src/` — the verified library (Verus). Its functions carry
  `requires` / `ensures` contracts proved by Verus, with these
  exceptions: the three calls into `blinc_core` in `coords` are trusted
  (their contracts are believed, not proved), and `AutoFramer`'s shared
  atomic flag has no specified value, so `AutoFramer::new` and
  `is_framed` have no `ensures` and `claim` states only that it never
  succeeds without a bounding box.
  - `id_set` — insertion-ordered set of region ids.
  - `selection` — tool modes, selection and marquee state, change reports.
  - `interaction` — how pointer press, move, drag, drag end and release
    change the selection and interaction state, and what they announce.
  - `hit` — hit regions, interaction state, event payloads, topmost hit test.
  - `spatial` — grid cells of a uniform spatial hash: registration,
    topmost-first point queries, once-per-region range queries.
  - `geometry` — index buffers of the box, sphere, cylinder, torus and
    line-grid meshes.
  - `painter` — push/pop transform-group bookkeeping.
  - `sketch` — setup-once and frame counting of the sketch runner.
  - `loading` — one-shot camera framing claim.
  - `zoom` — zoom anchor.
  - `coords` — the `blinc_core` point and rectangle types and the
    geometric predicates the library calls.
- `tests/` — tests of the library.
- `app/` — the rest of the toolkit in plain Rust: viewport, pan and zoom
  math, snapping, backgrounds, materials, mesh vertices, the painter, the
  sketch runner and `CanvasKit`, which stores the state in `blinc_core`
  signals and fires callbacks. It computes with floating-point numbers and
  drives the host UI, and calls the library for every decision above.
