# iced_logic

The decision-making core of a retained-mode GUI toolkit's pane grid,
scroll handling, text cache and keyed columns, with contracts proved by
Verus.

- `src/geometry.rs` – sizes (as `f32` bit patterns) and axes.
- `src/constraints.rs` – pane size constraints and pass-through marks.
- `src/node.rs` – the split tree of a pane grid: splitting, removing,
  finding and resizing panes, split counts, ancestors and the proxy split
  that a drag next to a fixed pane moves.
- `src/scroll_latch.rs` – which widget owns an in-flight scroll gesture.
- `src/paragraph_cache.rs` – the two-generation cache of shaped paragraphs
  and its non-blocking lookups.
- `src/keyed.rs` – which state tree each child of a keyed column inherits.
- `src/shaper.rs` – the decisions of the off-thread shaping worker: which
  jobs to shape, which results to keep, when to notify.
- `src/text_hit.rs` – which span of rich text a hit lands in.
- `src/clock.rs` – the monotonic clock.
- `app/` – the per-thread latch, the identifier counter, the shaping
  worker's thread, channel and notifier (`app/shaper.rs`) and the `f32`
  layout of pane grids (regions of panes and splits, constrained drags).
