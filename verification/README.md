# edamame

The core of a Markdown editor for the terminal: text buffers with undo, cursors and
selections, documents put together from rendered blocks, lists, links and footnotes,
and the editor that ties them to keys and the mouse. It is written in Rust and verified
with Verus: each function says in its contract what it does, and the contracts are
proved.

- `src/text.rs`, `src/cells.rs`: text as bytes and characters, and its width in the
  terminal.
- `src/document/`: buffers, ropes, cursors, graphemes, history, selections, the map
  between source and rendered lines, and rendered documents.
- `src/editor/`: the editor's state and what changes it. `edit_ops/` holds what keys
  do, `mouse_ops/` what the mouse does, `list_edit/` how lists are found and edited, and
  `laws.rs` what holds of the editor as a whole.
- `app/`: files, the clipboard, the log of clicks and labels.
- `tests/`: examples.

The editor does not draw. How lines are wrapped, where a table's pipes are drawn and what
lies under the pointer is handed in by the layers that draw, and what the editor asks of
them, such as rendering the document anew, it returns or notes in its state.
