//! Editing the buffer: typing, deleting a selection, pasting, loading and saving.

use vstd::prelude::*;
use crate::command::{Command, CommandView};
use crate::editor::{lemma_lines_len, Editor, EditorView, Key};
use crate::text::{
    before_byte, byte_count, byte_len, from_byte, join_lines, joined, lemma_views_insert,
    lemma_views_remove, lemma_views_update, line_views, line_with_char, line_with_str,
    line_without_char, on_boundary, splice, split_line, split_lines, text_lines,
};

verus! {

/// Four spaces, what the Tab key puts in.
pub open spec fn tab_spaces() -> Seq<char> {
    seq![' ', ' ', ' ', ' ']
}

pub proof fn lemma_commands_push(s: Seq<Command>, c: Command)
    ensures
        s.push(c).map_values(|c: Command| c@) == s.map_values(|c: Command| c@).push(c@),
{
    assert(s.push(c).map_values(|c: Command| c@) =~= s.map_values(|c: Command| c@).push(c@));
}

impl EditorView {
    /// The state with `cmd` recorded for undoing, unless recording is switched off;
    /// recording an edit forgets what could be redone.
    pub open spec fn record(self, cmd: CommandView) -> EditorView {
        if self.skip_undo {
            self
        } else {
            EditorView { undo: self.undo.push(cmd), redo: Seq::empty(), ..self }
        }
    }

    /// Whether typing `key` stays within the buffer and the ranges of the cursor's integers:
    /// the cursor's byte column must be where a character begins (or the line's end) to put
    /// text in or split the line there; Backspace needs a character at that byte column less
    /// one, and the character whose index is that number.
    pub open spec fn insert_ok(self, key: Key) -> bool {
        let y = self.line_idx();
        let x = self.cursor_x as int;
        &&& y <= usize::MAX
        &&& match key {
            Key::Char(_) => y < self.lines.len() && on_boundary(self.lines[y], x) && x + 1
                <= u16::MAX,
            Key::Enter => y < self.lines.len() && on_boundary(self.lines[y], x) && self.cursor_y
                + 1 <= u16::MAX,
            Key::Backspace => if x > 0 {
                &&& y < self.lines.len()
                &&& x - 1 < self.lines[y].len()
                &&& x - 1 < byte_len(self.lines[y])
                &&& on_boundary(self.lines[y], x - 1)
            } else if y > 0 {
                y < self.lines.len() && self.cursor_y > 0
            } else {
                true
            },
            Key::Tab => y < self.lines.len() && on_boundary(self.lines[y], x) && x + 4
                <= u16::MAX,
            _ => true,
        }
    }

    /// The state after `key` is typed at the cursor, with columns in bytes. A character
    /// goes in at the cursor's byte column and the cursor moves one column; Enter splits
    /// the line there; Backspace takes out the character that begins one byte column
    /// before the cursor (recording the character whose index is that number) or joins the
    /// line to the one above; Tab puts in four spaces. Any key marks the buffer modified.
    pub open spec fn after_insert(self, key: Key) -> EditorView {
        let y = self.line_idx();
        let x = self.cursor_x as int;
        let lines = self.lines;
        let v = EditorView { modified: true, ..self };
        match key {
            Key::Char(c) => {
                let r = v.record(CommandView::InsertChar { x: x as usize, y: y as usize, c });
                EditorView {
                    lines: lines.update(
                        y,
                        before_byte(lines[y], x) + seq![c] + from_byte(lines[y], x),
                    ),
                    cursor_x: (x + 1) as u16,
                    ..r
                }
            },
            Key::Enter => {
                let r = v.record(CommandView::SplitLine { x: x as usize, y: y as usize });
                EditorView {
                    lines: lines.update(y, before_byte(lines[y], x)).insert(
                        y + 1,
                        from_byte(lines[y], x),
                    ),
                    cursor_x: 0,
                    cursor_y: (self.cursor_y + 1) as u16,
                    ..r
                }
            },
            Key::Backspace => if x > 0 {
                let c = lines[y][x - 1];
                let r = v.record(
                    CommandView::DeleteChar { x: (x - 1) as usize, y: y as usize, c },
                );
                EditorView {
                    lines: lines.update(
                        y,
                        before_byte(lines[y], x - 1) + from_byte(lines[y], x - 1).drop_first(),
                    ),
                    cursor_x: (x - 1) as u16,
                    ..r
                }
            } else if y > 0 {
                let prev_len = byte_len(lines[y - 1]) as u16;
                let r = v.record(
                    CommandView::MergeLine { y: (y - 1) as usize, prev_line_len: prev_len as usize },
                );
                EditorView {
                    lines: lines.update(y - 1, lines[y - 1] + lines[y]).remove(y),
                    cursor_x: prev_len,
                    cursor_y: (self.cursor_y - 1) as u16,
                    ..r
                }
            } else {
                v
            },
            Key::Tab => {
                let r = v.record(CommandView::InsertChar { x: x as usize, y: y as usize, c: '\t' });
                EditorView {
                    lines: lines.update(
                        y,
                        before_byte(lines[y], x) + tab_spaces() + from_byte(lines[y], x),
                    ),
                    cursor_x: (x + 4) as u16,
                    ..r
                }
            },
            _ => v,
        }
    }

    /// Whether the selection, if any, lies inside the buffer and begins no higher than the
    /// first line shown.
    pub open spec fn delete_ok(self) -> bool {
        match self.selection {
            Some(sel) => sel.fits(self.lines) && sel.spec_normalize().1 >= self.scroll_y,
            None => true,
        }
    }

    /// The state after the selected text is deleted: the first selected line keeps its
    /// characters before the selection's first byte column and gets those of the last
    /// selected line from the selection's second byte column on;
    /// the cursor goes to where the selection began. Without a selection nothing changes.
    pub open spec fn after_delete_selection(self) -> EditorView {
        match self.selection {
            Some(sel) => {
                let (sx, sy, ex, ey) = sel.spec_normalize();
                let lines = self.lines;
                let r = self.record(
                    CommandView::DeleteSelection {
                        start_x: sx as usize,
                        start_y: sy,
                        text: sel.spec_sel_string(lines),
                    },
                );
                EditorView {
                    lines: lines.take(sy as int) + seq![
                        before_byte(lines[sy as int], sx as int) + from_byte(
                            lines[ey as int],
                            ex as int,
                        ),
                    ] + lines.skip(ey + 1),
                    selection: None,
                    modified: true,
                    cursor_x: sx,
                    cursor_y: (sy - self.scroll_y) as u16,
                    ..r
                }
            },
            None => self,
        }
    }
    /// Whether `check_insert` of `key` stays within the buffer and the integers' ranges.
    pub open spec fn check_insert_ok(self, key: Key) -> bool {
        if self.selection is Some {
            match key {
                Key::Backspace | Key::Delete => self.delete_ok(),
                Key::Char(_) | Key::Enter | Key::Tab => self.delete_ok()
                    && self.after_delete_selection().insert_ok(key),
                _ => true,
            }
        } else {
            self.insert_ok(key)
        }
    }

    /// The state after a key is typed in insert mode: with a selection, Backspace and
    /// Delete delete it, and a character, Enter or Tab replaces it; other keys then do
    /// nothing. Without a selection the key is typed at the cursor.
    pub open spec fn after_check_insert(self, key: Key) -> EditorView {
        if self.selection is Some {
            match key {
                Key::Backspace | Key::Delete => self.after_delete_selection(),
                Key::Char(_) | Key::Enter | Key::Tab => self.after_delete_selection().after_insert(
                    key,
                ),
                _ => self,
            }
        } else {
            self.after_insert(key)
        }
    }

    /// The state after each character of `t` is typed in turn, a newline as Enter.
    pub open spec fn insert_all(self, t: Seq<char>) -> EditorView
        decreases t.len(),
    {
        if t.len() == 0 {
            self
        } else {
            self.insert_all(t.drop_last()).after_insert(key_for(t.last()))
        }
    }

    /// Whether typing each character of `t` in turn stays within the buffer and ranges.
    pub open spec fn insert_all_ok(self, t: Seq<char>) -> bool {
        forall|i: int| 0 <= i < t.len() ==> #[trigger] self.insert_all(t.take(i)).insert_ok(
            key_for(t[i]),
        )
    }

    /// The state after the selection, if any, is deleted.
    pub open spec fn without_selection(self) -> EditorView {
        if self.selection is Some {
            self.after_delete_selection()
        } else {
            self
        }
    }

    /// The state in which pasting `t` starts typing: the paste is recorded for undoing
    /// and the recording of the single keys is switched off.
    pub open spec fn paste_start(self, t: Seq<char>) -> EditorView {
        EditorView {
            undo: self.undo.push(
                CommandView::InsertStr {
                    x: self.cursor_x as usize,
                    y: self.line_idx() as usize,
                    text: t,
                },
            ),
            redo: Seq::empty(),
            skip_undo: true,
            ..self
        }
    }

    /// The state after a paste: the selection, if any, is deleted; then the text from the
    /// clipboard, if it could be read, is typed at the cursor.
    pub open spec fn after_paste(self, text: Option<Seq<char>>) -> EditorView {
        let v = self.without_selection();
        match text {
            Some(t) => v.paste_start(t).insert_all(t),
            None => v,
        }
    }

    pub open spec fn paste_ok(self, text: Option<Seq<char>>) -> bool {
        let v = self.without_selection();
        &&& self.selection is Some ==> self.delete_ok()
        &&& text matches Some(t) ==> v.line_idx() <= usize::MAX && v.paste_start(t).insert_all_ok(t)
    }
}

/// The key that types `c`: Enter for a newline.
pub open spec fn key_for(c: char) -> Key {
    if c == '\n' {
        Key::Enter
    } else {
        Key::Char(c)
    }
}


impl Editor {
    /// Records `command` for undoing, unless recording is switched off.
    pub fn push_undo(&mut self, command: Command)
        ensures
            final(self)@ == old(self)@.record(command@),
    {
        if !self.skip_undo {
            proof {
                lemma_commands_push(self.undo_stack@, command);
            }
            self.undo_stack.push(command);
            self.redo_stack.clear();
            assert(self.redo_stack@.map_values(|c: Command| c@) =~= Seq::<CommandView>::empty());
        }
        assert(self@ =~= old(self)@.record(command@));
    }

    /// Types `key` at the cursor: a character or four spaces for Tab go in before the
    /// cursor, Enter splits the line, Backspace deletes the character before the cursor or
    /// joins the line to the one above. The edit is recorded for undoing.
    pub fn insert(&mut self, key: Key)
        requires
            old(self)@.insert_ok(key),
        ensures
            final(self)@ == old(self)@.after_insert(key),
    {
        proof {
            lemma_lines_len(self);
        }
        let line_idx = self.cursor_y as usize + self.scroll_y;
        self.modified = true;
        let ghost v = self@;
        match key {
            Key::Char(c) => {
                let x = self.cursor_x as usize;
                self.push_undo(Command::InsertChar { x, y: line_idx, c });
                let new_line = line_with_char(&self.buffer[line_idx], x, c);
                proof {
                    lemma_views_update(self.buffer@, line_idx as int, new_line);
                }
                self.buffer.set(line_idx, new_line);
                self.cursor_x += 1;
                assert(self@ =~= old(self)@.after_insert(key));
            },
            Key::Enter => {
                let x = self.cursor_x as usize;
                self.push_undo(Command::SplitLine { x, y: line_idx });
                let (head, new_line) = split_line(&self.buffer[line_idx], x);
                proof {
                    lemma_views_update(self.buffer@, line_idx as int, head);
                    lemma_views_insert(
                        self.buffer@.update(line_idx as int, head),
                        line_idx + 1,
                        new_line,
                    );
                }
                self.buffer.set(line_idx, head);
                self.buffer.insert(line_idx + 1, new_line);
                self.cursor_x = 0;
                self.cursor_y += 1;
                assert(self@ =~= old(self)@.after_insert(key));
            },
            Key::Backspace => {
                if self.cursor_x > 0 {
                    let x = self.cursor_x as usize;
                    let c = self.buffer[line_idx].as_str().get_char(x - 1);
                    self.push_undo(Command::DeleteChar { x: x - 1, y: line_idx, c });
                    let new_line = line_without_char(&self.buffer[line_idx], x - 1);
                    proof {
                        lemma_views_update(self.buffer@, line_idx as int, new_line);
                    }
                    self.buffer.set(line_idx, new_line);
                    self.cursor_x -= 1;
                    assert(self@ =~= old(self)@.after_insert(key));
                } else if line_idx > 0 {
                    let prev_line_len = byte_count(&self.buffer[line_idx - 1]) as u16;
                    self.push_undo(
                        Command::MergeLine { y: line_idx - 1, prev_line_len: prev_line_len as usize },
                    );
                    let ghost b0 = self.buffer@;
                    let current_line = self.buffer.remove(line_idx);
                    let mut prev = String::new();
                    self.buffer.set_and_swap(line_idx - 1, &mut prev);
                    prev.append(current_line.as_str());
                    let ghost b1 = self.buffer@;
                    self.buffer.set(line_idx - 1, prev);
                    proof {
                        lemma_views_remove(b0, line_idx as int);
                        lemma_views_update(b1, line_idx - 1, prev);
                        assert(b1.update(line_idx - 1, prev) == b0.remove(line_idx as int).update(
                            line_idx - 1,
                            prev,
                        ));
                        lemma_views_update(b0.remove(line_idx as int), line_idx - 1, prev);
                        assert(line_views(self.buffer@) =~= v.lines.update(
                            line_idx - 1,
                            v.lines[line_idx - 1] + v.lines[line_idx as int],
                        ).remove(line_idx as int));
                    }
                    self.cursor_x = prev_line_len;
                    self.cursor_y -= 1;
                    assert(self@ =~= old(self)@.after_insert(key));
                } else {
                    assert(self@ =~= old(self)@.after_insert(key));
                }
            },
            Key::Tab => {
                let x = self.cursor_x as usize;
                self.push_undo(Command::InsertChar { x, y: line_idx, c: '\t' });
                proof {
                    reveal_strlit("    ");
                    assert("    "@ =~= tab_spaces());
                }
                let new_line = line_with_str(&self.buffer[line_idx], x, "    ");
                proof {
                    lemma_views_update(self.buffer@, line_idx as int, new_line);
                }
                self.buffer.set(line_idx, new_line);
                self.cursor_x += 4;
                assert(self@ =~= old(self)@.after_insert(key));
            },
            _ => {
                assert(self@ =~= old(self)@.after_insert(key));
            },
        }
    }

    /// Deletes the selected text, records it for undoing, and puts the cursor where the
    /// selection began.
    pub fn delete_selection(&mut self)
        requires
            old(self)@.delete_ok(),
        ensures
            final(self)@ == old(self)@.after_delete_selection(),
    {
        if let Some(sel) = self.selection {
            let ghost v = self@;
            let (start_x, start_y, end_x, end_y) = sel.normalize();
            let text = sel.sel_string(&self.buffer);
            self.push_undo(Command::DeleteSelection { start_x: start_x as usize, start_y, text });
            proof {
                lemma_lines_len(self);
            }
            let ghost b0 = self.buffer@;
            if start_y == end_y {
                let joined_line = splice(
                    &self.buffer[start_y],
                    start_x as usize,
                    &self.buffer[start_y],
                    end_x as usize,
                );
                self.buffer.set(start_y, joined_line);
                proof {
                    assert(self.buffer@ =~= b0.take(start_y as int) + seq![joined_line] + b0.skip(
                        end_y + 1,
                    ));
                }
            } else {
                let mut tail = self.buffer.split_off(end_y + 1);
                let mut last = String::new();
                self.buffer.set_and_swap(end_y, &mut last);
                self.buffer.truncate(start_y + 1);
                let mut first = String::new();
                self.buffer.set_and_swap(start_y, &mut first);
                let joined_line = splice(&first, start_x as usize, &last, end_x as usize);
                self.buffer.set(start_y, joined_line);
                self.buffer.append(&mut tail);
                proof {
                    assert(self.buffer@ =~= b0.take(start_y as int) + seq![joined_line] + b0.skip(
                        end_y + 1,
                    ));
                }
            }
            proof {
                assert(line_views(self.buffer@) =~= v.lines.take(start_y as int) + seq![
                    before_byte(v.lines[start_y as int], start_x as int) + from_byte(
                        v.lines[end_y as int],
                        end_x as int,
                    ),
                ] + v.lines.skip(end_y + 1));
            }
            self.selection = None;
            self.modified = true;
            self.cursor_x = start_x;
            self.cursor_y = (start_y - self.scroll_y) as u16;
            assert(self@ =~= old(self)@.after_delete_selection());
        }
    }
    /// Types `key` in insert mode; a selection is deleted first, or only, as
    /// `after_check_insert` says.
    pub fn check_insert(&mut self, key: Key)
        requires
            old(self)@.check_insert_ok(key),
        ensures
            final(self)@ == old(self)@.after_check_insert(key),
    {
        if self.selection.is_some() {
            match key {
                Key::Backspace | Key::Delete => {
                    self.delete_selection();
                },
                Key::Char(_) | Key::Enter | Key::Tab => {
                    self.delete_selection();
                    self.insert(key);
                },
                _ => {},
            }
        } else {
            self.insert(key);
        }
    }

    /// Pastes `text`, what was read from the clipboard (`None` when it could not be read):
    /// the selection is deleted, then the text is typed at the cursor as one recorded edit.
    pub fn paste(&mut self, text: Option<String>)
        requires
            old(self)@.paste_ok(text.deep_view()),
        ensures
            final(self)@ == old(self)@.after_paste(text.deep_view()),
    {
        if self.selection.is_some() {
            self.delete_selection();
        }
        if let Some(text) = text {
            let ghost v = self@;
            let x = self.cursor_x as usize;
            let y = self.cursor_y as usize + self.scroll_y;
            let saved = text.clone();
            proof {
                lemma_commands_push(self.undo_stack@, Command::InsertStr { x, y, text: saved });
            }
            self.undo_stack.push(Command::InsertStr { x, y, text: saved });
            self.redo_stack.clear();
            self.skip_undo = true;
            let ghost start = self@;
            proof {
                assert(self.redo_stack@.map_values(|c: Command| c@) =~= Seq::<CommandView>::empty());
                assert(start =~= v.paste_start(text@));
            }
            let ghost mut typed: Seq<char> = Seq::empty();
            for c in it: text.as_str().chars()
                invariant
                    typed == it.seq().take(it.index() as int),
                    it.seq() == text@,
                    start == v.paste_start(text@),
                    start.insert_all_ok(text@),
                    self@ == start.insert_all(typed),
            {
                proof {
                    assert(typed == text@.take(it.index() as int));
                    assert(start.insert_all(text@.take(it.index() as int)).insert_ok(
                        key_for(text@[it.index() as int]),
                    ));
                    typed = typed.push(c);
                    assert(typed.drop_last() == it.seq().take(it.index() as int));
                }
                if c == '\n' {
                    self.insert(Key::Enter);
                } else {
                    self.insert(Key::Char(c));
                }
            }
            proof {
                assert(typed =~= text@);
            }
        }
    }
    /// Takes in the file at `path`: `contents` is its text, or `None` when there is no
    /// such file, which gives a buffer of one empty line. The buffer is then unmodified.
    pub fn load(&mut self, path: &str, contents: Option<&str>)
        ensures
            final(self)@ == (EditorView {
                path: path@,
                lines: match contents {
                    Some(c) => text_lines(c@),
                    None => seq![Seq::<char>::empty()],
                },
                modified: false,
                ..old(self)@
            }),
    {
        self.path = String::from_str(path);
        match contents {
            Some(c) => {
                self.buffer = split_lines(c);
            },
            None => {
                let mut b: Vec<String> = Vec::new();
                b.push(String::new());
                proof {
                    assert(line_views(b@) =~= seq![Seq::<char>::empty()]);
                }
                self.buffer = b;
            },
        }
        self.modified = false;
        assert(self@ =~= (EditorView {
            path: path@,
            lines: match contents {
                Some(c) => text_lines(c@),
                None => seq![Seq::<char>::empty()],
            },
            modified: false,
            ..old(self)@
        }));
    }

    /// The text to write to the file: the lines joined by newlines.
    pub fn contents(&self) -> (r: String)
        ensures
            r@ == joined(self@.lines),
    {
        join_lines(&self.buffer)
    }

    /// Marks the buffer as written out, after its contents were saved.
    pub fn mark_saved(&mut self)
        ensures
            final(self)@ == (EditorView { modified: false, ..old(self)@ }),
    {
        self.modified = false;
        assert(self@ =~= (EditorView { modified: false, ..old(self)@ }));
    }

    /// Whether closing the editor has to ask first whether to save: when the buffer has
    /// changes that are not saved.
    pub fn close_asks_to_save(&self) -> (r: bool)
        ensures
            r == self.modified,
    {
        self.modified
    }

    /// The selected text, for the clipboard; `None` without a selection.
    pub fn copy_selection(&self) -> (r: Option<String>)
        requires
            self.selection matches Some(sel) ==> sel.fits(self@.lines),
        ensures
            r.deep_view() == (match self.selection {
                Some(sel) => Some(sel.spec_sel_string(self@.lines)),
                None => None,
            }),
    {
        match &self.selection {
            Some(sel) => Some(sel.sel_string(&self.buffer)),
            None => None,
        }
    }
}

} // verus!