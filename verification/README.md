# lvim-zcopy

A keyboard copy-mode for zellij panes: a cursor, a vi-style selection and a
search over a pane's dumped scrollback, with its colours, and a yank of plain
text to the Wayland clipboard.

- `src/` is the library, verified with Verus: the parser of the dump (`dump`,
  `sgr`, `cell`), the state (`app`), the key table and what each event does
  (`keys`, `class`), the matcher (`search`), the screen as operations on a
  terminal (`screen`), and what the editor is handed (`spans`, `cli`).
- `app/` is the program around it: files, the terminal, `wl-copy` and `nvim`.
- `tests/` runs the library.

The proof functions whose names start with `law_` state what holds of the
library as a whole.
