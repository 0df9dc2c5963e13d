# rune

A small terminal text editor. The library in `src/` holds the editor's logic with
Verus contracts and proofs; `app/` is the terminal program around it.

- `src/text.rs`: lines as character sequences and their UTF-8 bytes; splitting a file's text into lines and
  joining lines back, with the laws that loading and saving undo each other.
- `src/selection.rs`: selections, their reading-order ends and their text.
- `src/command.rs`: the edits recorded for undoing.
- `src/editor.rs`: the editor's state, its mathematical view, cursor movement and the
  handling of a terminal event.
- `src/buffer.rs`: typing, deleting a selection, pasting, loading and saving.
- `src/render.rs`: the screen: numbered rows, highlighting, the status line.
- `src/guards.rs`: executable tests of the operations' preconditions.
- `src/laws.rs`: what typing, pasting and deleting do to the joined text, and that the
  cursor stays in the buffer.

Columns count bytes of a line's UTF-8 encoding, as `String` indexes it; an edit at a
column asks that the column fall on a character boundary.
