# colorant

Per-directory terminal theme switcher with system dark/light mode support.
`colorant apply` walks up from the working directory to the nearest
`.colorantrc`, resolves it for the current mode and writes the OSC escape
sequences that repaint the terminal.

The project is written in Verus. `src/` is the verified library: every
function there carries a contract that Verus proves, and the laws the tool
relies on are stated as proof functions beside the code they are about.
`app/` is the binary around it: argument parsing, the environment, files,
the network, and the terminal UI.

## Layout

- `src/text.rs` — character-level helpers (`str::trim`, `str::lines`,
  searching, decimal formatting) with their specifications.
- `src/theme/` — the data model (`HexColor`, `ThemeName`, `ThemeLayer`),
  the `.colorant` / `.colorantrc` parsers, resolution of an rc against its
  parent palette, the bundled palettes, the Gogh source (catalog, index
  file, YAML palettes) and rc rewriting. `rc_law.rs` proves that a
  rewritten rc reads back with the requested `extends*` values and the
  same color layers.
- `src/terminal/` — OSC sequences, tmux wrapping, terminal detection and
  ANSI styling.
- `src/commands/` — what each subcommand computes: `apply` output, the
  `doctor` report, `show` rows, `themes` decisions and the picker's state
  machine (`themes/tui.rs`), plus the slot assignments (`picks.rs`).
- `src/config.rs`, `src/mode.rs`, `src/walk.rs`, `src/shell/` — settings,
  dark/light decisions, the walk up the directory tree, the zsh hook.
- `tests/` — tests of the library on concrete values.
- `app/` — the `colorant` binary.
