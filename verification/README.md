# tess

The core of `tess`, a less-style terminal pager, written in Verus: every
function in `src/` carries a contract that Verus proves.

- `src/` — the verified library: ANSI escape parsing, line and record
  indexing, hex dumps, the working set of files, colon commands and what
  each one does to the pager, the key-by-key prefix modes, the line
  prompts, the split-layout and mouse decisions of the event loop, key bindings,
  display templates and log formats, `--<group>` / `--<layout>` expansion
  and their configuration layers, grep predicates and `--filter` field
  filters, per-pane options and predicates, the aligned diff view, image
  rendering with the Kitty and Sixel encoders, animation playback, batch
  output planning, terminal style transitions. Calls into the
  `regex`, `similar`, `encoding_rs`, `unicode-width` and `image` crates go
  through small trusted wrappers whose contracts are stated next to them.
- `tests/` — tests of the library's behaviour on concrete inputs.
- `app/` — ordinary Rust around the library: the clap command line, reading
  `formats.toml` / `keys.toml` with serde and toml, running the clipboard
  tools and git, writing batch output, crossterm input and styles, and the
  man page.

Laws the library promises (round trips, invariants kept by every
operation) are public proof functions named `lemma_*`.
