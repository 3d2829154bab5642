# tabby_zj

A sidebar for the Zellij terminal multiplexer: tabs sorted into groups,
context menus, mouse and keyboard navigation, indicators set through the
pipe, and small widgets (clock, git, stats, quota, a pet). The library under `src/` is
written in Verus; each function carries a contract that the verifier
checks.

Layout:

- `src/` — the verified library: grouping (`grouping.rs`), drawing
  (`render.rs`), input handling (`input.rs`), menus (`menus.rs`), state and
  persistence (`state.rs`, `persistence.rs`), colours (`colors.rs`), text
  utilities (`text.rs`), widgets and the emoji picker. Calls into the
  `regex`, `emojis` and `unicode-width` crates go through a few trusted
  wrappers whose contracts are stated next to them.
- `app/` — the plugin around the library: it converts Zellij's events,
  carries out the host requests the handlers return (switching tabs,
  saving state, running `git status`), reads the YAML configuration and
  the JSON state file, reads the clock, and does what needs floating
  point: colour shades, the colour picker's sliders, the stats figures and
  the pet's needs. It hands the library the results (formatted figures,
  filled bar cells) and the library lays out the lines.
- `tests/` — tests of the library's behaviour on concrete inputs.
