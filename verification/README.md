# thread_visual_style

Visual styling for sidebar thread and terminal rows, verified with Verus.

A producer describes how a row should look either through the
`zed.dev/thread_style` entry of an ACP `_meta` map or through a
`[zed-style key=value ...]` marker in a terminal title. The library parses
both into a `ThreadVisualStyle` and decides how a row renders from it.

- `src/color.rs` — hex colour literals (`#rgb`, `#rrggbb`, `#rrggbbaa`).
- `src/text.rs` — Unicode whitespace, trimming, text comparison.
- `src/style.rs` — the style, its canonical states, badge and state cleanup.
- `src/marker.rs` — the title marker grammar and its parser.
- `src/meta.rs` — the `_meta` entry, over a plain model of the JSON map.
- `src/render.rs` — icon colour, background tint and accent rail decisions.
- `src/notification.rs` — the desktop notification to send.
- `app/` — the JSON, GPUI and XDG-portal glue around the library.
- `tests/` — scenarios, edge cases, a check of every `char` against std's
  whitespace, and a comparison with the `regex` crate's reading of the
  marker pattern on some tens of thousands of generated titles.
