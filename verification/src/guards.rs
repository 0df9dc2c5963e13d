//! Tests of the conditions under which the editing operations stay within the buffer and
//! the ranges of their integers, for callers that cannot prove them.

use vstd::prelude::*;
use crate::buffer::key_for;
use crate::editor::{is_arrow, lemma_lines_len, control_action, Editor, EditorView, Event, Key, Modifiers, Mode};
use crate::render::{decimal_string, lemma_decimal_usize};
use crate::text::{byte_count, char_count, is_boundary, line_views};

verus! {

/// Whether two states have the same lines, cursor and scrolling.
pub open spec fn same_place(a: EditorView, b: EditorView) -> bool {
    &&& a.lines == b.lines
    &&& a.cursor_x == b.cursor_x
    &&& a.cursor_y == b.cursor_y
    &&& a.scroll_y == b.scroll_y
    &&& a.window_height == b.window_height
}

pub proof fn lemma_insert_same_place(a: EditorView, b: EditorView, key: Key)
    requires
        same_place(a, b),
    ensures
        a.insert_ok(key) == b.insert_ok(key),
        same_place(a.after_insert(key), b.after_insert(key)),
{
}

pub proof fn lemma_move_same_place(a: EditorView, b: EditorView, key: Key)
    requires
        same_place(a, b),
    ensures
        a.move_ok(key) == b.move_ok(key),
        same_place(a.after_move(key), b.after_move(key)),
{
}

pub proof fn lemma_insert_all_same_place(a: EditorView, b: EditorView, t: Seq<char>)
    requires
        same_place(a, b),
    ensures
        same_place(a.insert_all(t), b.insert_all(t)),
    decreases t.len(),
{
    if t.len() > 0 {
        lemma_insert_all_same_place(a, b, t.drop_last());
        lemma_insert_same_place(a.insert_all(t.drop_last()), b.insert_all(t.drop_last()), key_for(t.last()));
    }
}

impl Editor {
    /// The buffer line of the cursor, or `None` when it does not fit a `usize`.
    fn line_index(&self) -> (r: Option<usize>)
        ensures
            r matches Some(y) ==> y == self@.line_idx(),
            r is None ==> self@.line_idx() > usize::MAX,
    {
        (self.cursor_y as usize).checked_add(self.scroll_y)
    }

    /// A copy of the editor's lines, cursor, window and selection, without the undo history
    /// and with recording switched off.
    fn scratch_copy(&self) -> (r: Editor)
        ensures
            same_place(r@, self@),
            r.selection == self.selection,
            r.mode == self.mode,
    {
        let buffer = self.buffer.clone();
        proof {
            assert(line_views(buffer@) =~= line_views(self.buffer@)) by {
                assert forall|i: int| 0 <= i < buffer@.len() implies buffer@[i]@ == self.buffer@[i]@ by {
                    assert(cloned::<String>(self.buffer[i], buffer[i]));
                }
            }
        }
        Editor {
            mode: self.mode,
            cursor_x: self.cursor_x,
            cursor_y: self.cursor_y,
            window_width: self.window_width,
            window_height: self.window_height,
            buffer,
            scroll_y: self.scroll_y,
            path: String::new(),
            modified: self.modified,
            selection: self.selection,
            undo_stack: Vec::new(),
            redo_stack: Vec::new(),
            skip_undo: true,
        }
    }

    /// Whether `move_cursor(key)` may be called.
    pub fn can_move(&self, key: Key) -> (r: bool)
        ensures
            r == self@.move_ok(key),
    {
        proof {
            lemma_lines_len(self);
        }
        let len = self.buffer.len();
        let x = self.cursor_x;
        let cy = self.cursor_y as usize;
        let up_index = if self.cursor_y > 0 {
            (cy - 1).checked_add(self.scroll_y)
        } else if self.scroll_y > 0 {
            Some(self.scroll_y - 1)
        } else {
            Some(self.scroll_y)
        };
        let up_ok = match up_index {
            Some(i) => i < len,
            None => false,
        };
        let y = self.line_index();
        let down_ok = match y {
            Some(y) => y < len && (y + 1 >= len || self.window_height >= 2),
            None => false,
        };
        proof {
            assert(up_ok == self@.up_ok());
            assert(down_ok == self@.down_ok());
        }
        match key {
            Key::Up => up_ok,
            Key::Down => down_ok,
            Key::Left => !(x == 0 && self.cursor_y > 0) || up_ok,
            Key::Right => match y {
                Some(y) => {
                    if y < len {
                        let line_len = byte_count(&self.buffer[y]) as u16;
                        !(x >= line_len && y < len - 1) || down_ok
                    } else {
                        false
                    }
                },
                None => false,
            },
            _ => true,
        }
    }

    /// Whether `insert(key)` may be called.
    pub fn can_insert(&self, key: Key) -> (r: bool)
        ensures
            r == self@.insert_ok(key),
    {
        proof {
            lemma_lines_len(self);
        }
        let len = self.buffer.len();
        let x = self.cursor_x as usize;
        match self.line_index() {
            None => false,
            Some(y) => {
                let in_line = y < len && is_boundary(&self.buffer[y], x);
                match key {
                    Key::Char(_) => in_line && x + 1 <= 65535,
                    Key::Enter => in_line && self.cursor_y < 65535,
                    Key::Backspace => if x > 0 {
                        y < len && x - 1 < char_count(&self.buffer[y]) && x - 1 < byte_count(
                            &self.buffer[y],
                        ) && is_boundary(&self.buffer[y], x - 1)
                    } else if y > 0 {
                        y < len && self.cursor_y > 0
                    } else {
                        true
                    },
                    Key::Tab => in_line && x + 4 <= 65535,
                    _ => true,
                }
            },
        }
    }

    /// Whether `delete_selection()` may be called.
    pub fn can_delete_selection(&self) -> (r: bool)
        ensures
            r == self@.delete_ok(),
    {
        proof {
            lemma_lines_len(self);
        }
        match self.selection {
            None => true,
            Some(sel) => {
                let len = self.buffer.len();
                let (_, first_y, _, _) = sel.normalize();
                sel.start_y < len && sel.end_y < len && is_boundary(
                    &self.buffer[sel.start_y],
                    sel.start_x as usize,
                ) && is_boundary(&self.buffer[sel.end_y], sel.end_x as usize) && first_y
                    >= self.scroll_y
            },
        }
    }

    /// Whether `copy_selection()` may be called: the selection, if any, lies in the buffer.
    pub fn can_copy(&self) -> (r: bool)
        ensures
            r == (self.selection matches Some(sel) ==> sel.fits(self@.lines)),
    {
        proof {
            lemma_lines_len(self);
        }
        match self.selection {
            None => true,
            Some(sel) => {
                let len = self.buffer.len();
                sel.start_y < len && sel.end_y < len && is_boundary(
                    &self.buffer[sel.start_y],
                    sel.start_x as usize,
                ) && is_boundary(&self.buffer[sel.end_y], sel.end_x as usize)
            },
        }
    }

    /// Whether `check_insert(key)` may be called.
    pub fn can_check_insert(&self, key: Key) -> (r: bool)
        ensures
            r == self@.check_insert_ok(key),
    {
        if self.selection.is_some() {
            match key {
                Key::Backspace | Key::Delete => self.can_delete_selection(),
                Key::Char(_) | Key::Enter | Key::Tab => {
                    if !self.can_delete_selection() {
                        return false;
                    }
                    let mut e = self.scratch_copy();
                    e.delete_selection();
                    proof {
                        assert(same_place(e@, self@.after_delete_selection()));
                        lemma_insert_same_place(e@, self@.after_delete_selection(), key);
                    }
                    e.can_insert(key)
                },
                _ => true,
            }
        } else {
            self.can_insert(key)
        }
    }

    /// Whether `handle_event(event)` may be called.
    pub fn can_handle_event(&self, event: Event) -> (r: bool)
        ensures
            r == self@.event_ok(event),
    {
        match event {
            Event::Key(code, mods) => {
                let control = mods == Modifiers::Control && match code {
                    Key::Char('q') | Key::Char('s') | Key::Char('c') | Key::Char('v')
                    | Key::Char('z') | Key::Char('y') => true,
                    _ => false,
                };
                let arrow = match code {
                    Key::Up | Key::Down | Key::Left | Key::Right => true,
                    _ => false,
                };
                proof {
                    assert(control == (control_action(code, mods) is Some));
                    assert(arrow == is_arrow(code));
                }
                if control {
                    true
                } else if code == Key::Esc && mods == Modifiers::Plain {
                    true
                } else if code == Key::Char('i') && mods == Modifiers::Plain && self.mode
                    == Mode::Viewing {
                    true
                } else if mods == Modifiers::Shift && arrow {
                    if self.line_index().is_none() || !self.can_move(code) {
                        return false;
                    }
                    let mut e = self.scratch_copy();
                    proof {
                        let v = if self@.selection is None {
                            self@.selection_started()
                        } else {
                            self@
                        };
                        assert(same_place(v, e@));
                        lemma_move_same_place(v, e@, code);
                    }
                    e.move_cursor(code);
                    e.line_index().is_some()
                } else if self.mode == Mode::Viewing || arrow {
                    self.can_move(code)
                } else {
                    self.can_check_insert(code)
                }
            },
            _ => true,
        }
    }

    /// Whether `paste(text)` may be called.
    pub fn can_paste(&self, text: &Option<String>) -> (r: bool)
        ensures
            r == self@.paste_ok(text.deep_view()),
    {
        if !self.can_delete_selection() {
            return false;
        }
        let mut e = self.scratch_copy();
        if e.selection.is_some() {
            e.delete_selection();
        }
        let ghost w = self@.without_selection();
        assert(same_place(e@, w));
        match text {
            None => true,
            Some(t) => {
                assert(text.deep_view() == Some(t@));
                if e.line_index().is_none() {
                    return false;
                }
                let ghost start = w.paste_start(t@);
                assert(same_place(e@, start));
                let ghost mut typed: Seq<char> = Seq::empty();
                for c in it: t.as_str().chars()
                    invariant
                        typed == it.seq().take(it.index() as int),
                        it.seq() == t@,
                        start == w.paste_start(t@),
                        w == self@.without_selection(),
                        text.deep_view() == Some(t@),
                        self@.delete_ok(),
                        same_place(e@, start.insert_all(typed)),
                        forall|i: int|
                            0 <= i < typed.len() ==> #[trigger] start.insert_all(
                                typed.take(i),
                            ).insert_ok(key_for(typed[i])),
                {
                    let key = if c == '\n' {
                        Key::Enter
                    } else {
                        Key::Char(c)
                    };
                    proof {
                        assert(key == key_for(c));
                        lemma_insert_same_place(e@, start.insert_all(typed), key);
                    }
                    if !e.can_insert(key) {
                        proof {
                            let k = typed.len() as int;
                            assert(t@.take(k) =~= typed);
                            assert(t@[k] == c);
                            assert(!start.insert_all(t@.take(k)).insert_ok(key_for(t@[k])));
                            assert(!start.insert_all_ok(t@));
                            assert(!self@.paste_ok(text.deep_view()));
                        }
                        return false;
                    }
                    let ghost old_e = e@;
                    e.insert(key);
                    proof {
                        let old_typed = typed;
                        typed = typed.push(c);
                        assert(typed.drop_last() == old_typed);
                        lemma_insert_same_place(old_e, start.insert_all(old_typed), key);
                        assert forall|i: int|
                            0 <= i < typed.len() implies #[trigger] start.insert_all(
                                typed.take(i),
                            ).insert_ok(key_for(typed[i])) by {
                            if i < old_typed.len() {
                                assert(typed.take(i) =~= old_typed.take(i));
                            } else {
                                assert(typed.take(i) =~= old_typed);
                            }
                        }
                    }
                }
                proof {
                    assert(typed =~= t@);
                }
                true
            },
        }
    }

    /// Whether `frame()` may be called.
    pub fn can_draw(&self) -> (r: bool)
        ensures
            r == self@.frame_ok(),
    {
        proof {
            lemma_lines_len(self);
            lemma_decimal_usize(self.buffer.len());
        }
        let digits = char_count(&decimal_string(self.buffer.len()));
        self.window_height >= 1 && (self.window_height < 2 || self.scroll_y <= usize::MAX - (
        self.window_height as usize - 2))
            && self.cursor_x < 65535 && self.cursor_y < 65535 && (self.cursor_x as usize)
            + digits + 2 <= 65535
    }
}

} // verus!
