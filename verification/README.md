# radar_core

A liquidation-cascade radar over perpetual-futures markets, with its core
verified in Verus.

Per-symbol market events (derivatives snapshots, order-book snapshots,
liquidations) are folded into bounded windows; five signals read those windows;
a spec weights the signals into a severity per symbol; symbols at or above a
threshold are ranked (severity descending, symbol ascending) and capped into a
report. Specs and events arrive as JSON (or TOML for specs), through a CLI or a
JSON command boundary.

## Layout

- `src/` — the verified library.
  - `signal.rs` — signal kinds, their arity and the canonical `kind(params)` key.
  - `spec.rs` — what validation reads of a spec, and the validation itself.
  - `event.rs`, `symbol_state.rs` — events and the per-symbol windowed state:
    the fold, readiness, and the window values each signal reads.
  - `history.rs` — the fold stated over the whole event history.
  - `order.rs`, `universe.rs` — symbol order and the symbol-ordered universe.
  - `batch.rs` — batch folding, and the proof that streaming feeds build the
    same states as a batch fold.
  - `radar.rs` — the streaming radar (spec + universe).
  - `report.rs` — ranking candidates into a report.
  - `command.rs` — command names, field errors and reply envelopes.
  - `render.rs`, `text.rs` — the text report and decimal rendering.
- `app/` — the CLI, the serde data model with its real-valued fields, the
  scoring and severity arithmetic (floating point), the parallel scan and the
  JSON dispatch.
- `tests/` — tests of the library.
