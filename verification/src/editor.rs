//! The editor's state, cursor movement and selection handling.

use vstd::prelude::*;
use crate::command::{Command, CommandView};
use crate::selection::Selection;
use crate::text::{byte_count, byte_len, line_views};

verus! {

/// Whether keys move the cursor only, or also edit the buffer.
#[derive(Clone, Copy, Debug, PartialEq, Eq, Structural)]
pub enum Mode {
    Viewing,
    Insert,
}

/// A key of the keyboard, as far as the editor tells keys apart.
#[derive(Clone, Copy, Debug, PartialEq, Eq, Structural)]
pub enum Key {
    Char(char),
    Enter,
    Tab,
    Backspace,
    Delete,
    Up,
    Down,
    Left,
    Right,
    Esc,
    Other,
}

/// The modifier keys held with a key: exactly none, exactly Shift, exactly Control, or
/// any other combination.
#[derive(Clone, Copy, Debug, PartialEq, Eq, Structural)]
pub enum Modifiers {
    Plain,
    Shift,
    Control,
    Other,
}

/// What the terminal reports.
#[derive(Clone, Copy, Debug, PartialEq, Eq, Structural)]
pub enum Event {
    Key(Key, Modifiers),
    Resize(u16, u16),
    Other,
}

/// What the editor asks of its surroundings after an event.
#[derive(Clone, Copy, Debug, PartialEq, Eq, Structural)]
pub enum Action {
    /// Nothing: wait for the next event.
    Continue,
    /// Close the editor (asking whether to save unsaved changes), then stop.
    Quit,
    /// Write the buffer to its file.
    Save,
    /// Put the selected text on the clipboard.
    Copy,
    /// Paste the text of the clipboard.
    Paste,
    Undo,
    Redo,
}

/// Whether `k` is an arrow key.
pub open spec fn is_arrow(k: Key) -> bool {
    k is Up || k is Down || k is Left || k is Right
}

/// The request made by `code` pressed with exactly Control: q, s, c, v, z and y.
pub open spec fn control_action(code: Key, mods: Modifiers) -> Option<Action> {
    if mods == Modifiers::Control {
        match code {
            Key::Char('q') => Some(Action::Quit),
            Key::Char('s') => Some(Action::Save),
            Key::Char('c') => Some(Action::Copy),
            Key::Char('v') => Some(Action::Paste),
            Key::Char('z') => Some(Action::Undo),
            Key::Char('y') => Some(Action::Redo),
            _ => None,
        }
    } else {
        None
    }
}

/// The editor's state. Columns count bytes of a line's UTF-8 text; `cursor_y` is the row on
/// screen and `scroll_y` the buffer line shown on the first row.
pub struct Editor {
    pub mode: Mode,
    pub cursor_x: u16,
    pub cursor_y: u16,
    pub window_width: u16,
    pub window_height: u16,
    pub buffer: Vec<String>,
    pub scroll_y: usize,
    pub path: String,
    pub modified: bool,
    pub selection: Option<Selection>,
    pub undo_stack: Vec<Command>,
    pub redo_stack: Vec<Command>,
    pub skip_undo: bool,
}

/// The editor's state as mathematical values.
#[verifier::ext_equal]
pub struct EditorView {
    pub mode: Mode,
    pub cursor_x: u16,
    pub cursor_y: u16,
    pub window_width: u16,
    pub window_height: u16,
    pub lines: Seq<Seq<char>>,
    pub scroll_y: usize,
    pub path: Seq<char>,
    pub modified: bool,
    pub selection: Option<Selection>,
    pub undo: Seq<CommandView>,
    pub redo: Seq<CommandView>,
    pub skip_undo: bool,
}

impl View for Editor {
    type V = EditorView;

    open spec fn view(&self) -> EditorView {
        EditorView {
            mode: self.mode,
            cursor_x: self.cursor_x,
            cursor_y: self.cursor_y,
            window_width: self.window_width,
            window_height: self.window_height,
            lines: line_views(self.buffer@),
            scroll_y: self.scroll_y,
            path: self.path@,
            modified: self.modified,
            selection: self.selection,
            undo: self.undo_stack@.map_values(|c: Command| c@),
            redo: self.redo_stack@.map_values(|c: Command| c@),
            skip_undo: self.skip_undo,
        }
    }
}

impl EditorView {
    /// The buffer line that the cursor is on.
    pub open spec fn line_idx(self) -> int {
        self.cursor_y + self.scroll_y
    }

    /// The length of line `y` in bytes, cut to 16 bits as the cursor column is.
    pub open spec fn line_len(self, y: int) -> u16 {
        byte_len(self.lines[y]) as u16
    }

    /// Whether the cursor stands on a line of the buffer, at most at its end.
    pub open spec fn cursor_in_buffer(self) -> bool {
        &&& 0 <= self.line_idx() < self.lines.len()
        &&& self.cursor_x <= byte_len(self.lines[self.line_idx()])
    }

    /// The state with the cursor column moved back to the end of the line if it is past it.
    pub open spec fn clamp_x(self) -> EditorView {
        let len = self.line_len(self.line_idx());
        if self.cursor_x > len {
            EditorView { cursor_x: len, ..self }
        } else {
            self
        }
    }

    /// One line up: the cursor row moves up, or else the view scrolls up, if either can.
    pub open spec fn row_up(self) -> EditorView {
        if self.cursor_y > 0 {
            EditorView { cursor_y: (self.cursor_y - 1) as u16, ..self }
        } else if self.scroll_y > 0 {
            EditorView { scroll_y: (self.scroll_y - 1) as usize, ..self }
        } else {
            self
        }
    }

    pub open spec fn up(self) -> EditorView {
        self.row_up().clamp_x()
    }

    pub open spec fn up_ok(self) -> bool {
        self.row_up().line_idx() < self.lines.len()
    }

    /// One line down, if the cursor is not on the last line: the cursor row moves down,
    /// or the view scrolls when the cursor is on the last row above the status line.
    pub open spec fn row_down(self) -> EditorView {
        if self.line_idx() < self.lines.len() - 1 {
            if self.cursor_y < self.window_height - 2 {
                EditorView { cursor_y: (self.cursor_y + 1) as u16, ..self }
            } else {
                EditorView { scroll_y: (self.scroll_y + 1) as usize, ..self }
            }
        } else {
            self
        }
    }

    pub open spec fn down(self) -> EditorView {
        self.row_down().clamp_x()
    }

    pub open spec fn down_ok(self) -> bool {
        &&& self.line_idx() < self.lines.len()
        &&& self.line_idx() < self.lines.len() - 1 ==> self.window_height >= 2
    }

    /// The state after the cursor is moved by `key`; other keys change nothing.
    pub open spec fn after_move(self, key: Key) -> EditorView {
        match key {
            Key::Up => self.up(),
            Key::Down => self.down(),
            Key::Left => if self.cursor_x > 0 {
                EditorView { cursor_x: (self.cursor_x - 1) as u16, ..self }
            } else if self.cursor_y > 0 {
                let v = self.up();
                EditorView { cursor_x: v.line_len(v.line_idx()), ..v }
            } else {
                self
            },
            Key::Right => if self.cursor_x < self.line_len(self.line_idx()) {
                EditorView { cursor_x: (self.cursor_x + 1) as u16, ..self }
            } else if self.line_idx() < self.lines.len() - 1 {
                EditorView { cursor_x: 0, ..self.down() }
            } else {
                self
            },
            _ => self,
        }
    }

    /// The state with a selection started at the cursor.
    pub open spec fn selection_started(self) -> EditorView {
        EditorView {
            selection: Some(
                Selection {
                    start_x: self.cursor_x,
                    start_y: self.line_idx() as usize,
                    end_x: self.cursor_x,
                    end_y: self.line_idx() as usize,
                },
            ),
            ..self
        }
    }

    /// The state with the end of the selection, if any, moved to the cursor.
    pub open spec fn selection_updated(self) -> EditorView {
        match self.selection {
            Some(sel) => EditorView {
                selection: Some(
                    Selection { end_x: self.cursor_x, end_y: self.line_idx() as usize, ..sel },
                ),
                ..self
            },
            None => self,
        }
    }

    /// The state after an arrow key with Shift: a selection is started at the cursor if
    /// there is none, the cursor moves, and the selection's end follows it.
    pub open spec fn shift_moved(self, dir: Key) -> EditorView {
        let v = if self.selection is None {
            self.selection_started()
        } else {
            self
        };
        v.after_move(dir).selection_updated()
    }

    pub open spec fn shift_move_ok(self, dir: Key) -> bool {
        let v = if self.selection is None {
            self.selection_started()
        } else {
            self
        };
        &&& self.line_idx() <= usize::MAX
        &&& v.move_ok(dir)
        &&& v.after_move(dir).line_idx() <= usize::MAX
    }

    /// The state with no selection.
    pub open spec fn unselected(self) -> EditorView {
        EditorView { selection: None, ..self }
    }

    /// The state after `event` and what the surroundings are asked to do: the Control
    /// keys are handed on; Esc switches to viewing and `i` (when viewing) to inserting;
    /// arrows with Shift extend the selection; other keys move the cursor when viewing, and
    /// when inserting move it (arrows) or are typed; a resize takes the new window size.
    pub open spec fn after_event(self, event: Event) -> (EditorView, Action) {
        match event {
            Event::Key(code, mods) => match control_action(code, mods) {
                Some(a) => (self, a),
                None => if code == Key::Esc && mods == Modifiers::Plain {
                    (EditorView { mode: Mode::Viewing, ..self }, Action::Continue)
                } else if code == Key::Char('i') && mods == Modifiers::Plain && self.mode
                    == Mode::Viewing {
                    (EditorView { mode: Mode::Insert, ..self }, Action::Continue)
                } else if mods == Modifiers::Shift && is_arrow(code) {
                    (self.shift_moved(code), Action::Continue)
                } else if self.mode == Mode::Viewing || is_arrow(code) {
                    (self.unselected().after_move(code), Action::Continue)
                } else {
                    (self.after_check_insert(code), Action::Continue)
                },
            },
            Event::Resize(w, h) => (
                EditorView { window_width: w, window_height: h, ..self },
                Action::Continue,
            ),
            Event::Other => (self, Action::Continue),
        }
    }

    /// Whether handling `event` stays within the buffer and the integers' ranges.
    pub open spec fn event_ok(self, event: Event) -> bool {
        match event {
            Event::Key(code, mods) => match control_action(code, mods) {
                Some(a) => true,
                None => if code == Key::Esc && mods == Modifiers::Plain {
                    true
                } else if code == Key::Char('i') && mods == Modifiers::Plain && self.mode
                    == Mode::Viewing {
                    true
                } else if mods == Modifiers::Shift && is_arrow(code) {
                    self.shift_move_ok(code)
                } else if self.mode == Mode::Viewing || is_arrow(code) {
                    self.move_ok(code)
                } else {
                    self.check_insert_ok(code)
                },
            },
            _ => true,
        }
    }

    /// Whether moving the cursor by `key` stays on lines of the buffer and within the
    /// ranges of the cursor's integers.
    pub open spec fn move_ok(self, key: Key) -> bool {
        match key {
            Key::Up => self.up_ok(),
            Key::Down => self.down_ok(),
            Key::Left => self.cursor_x == 0 && self.cursor_y > 0 ==> self.up_ok(),
            Key::Right => {
                &&& self.line_idx() < self.lines.len()
                &&& self.cursor_x >= self.line_len(self.line_idx()) && self.line_idx()
                    < self.lines.len() - 1 ==> self.down_ok()
            },
            _ => true,
        }
    }
}

/// The editor's lines are as many as its buffer holds, which fits a `usize`.
pub proof fn lemma_lines_len(e: &Editor)
    ensures
        e@.lines.len() == e.buffer@.len(),
        e.buffer@.len() <= usize::MAX,
{
    assert(e.buffer@.len() == e.buffer.len());
}

impl Editor {
    /// An editor with an empty buffer and no file, for a window of the given size.
    pub fn new(window_width: u16, window_height: u16) -> (r: Editor)
        ensures
            r@ == (EditorView {
                mode: Mode::Viewing,
                cursor_x: 0,
                cursor_y: 0,
                window_width,
                window_height,
                lines: Seq::empty(),
                scroll_y: 0,
                path: Seq::empty(),
                modified: false,
                selection: None,
                undo: Seq::empty(),
                redo: Seq::empty(),
                skip_undo: false,
            }),
    {
        let r = Editor {
            mode: Mode::Viewing,
            cursor_x: 0,
            cursor_y: 0,
            window_width,
            window_height,
            buffer: Vec::new(),
            scroll_y: 0,
            path: String::new(),
            modified: false,
            selection: None,
            undo_stack: Vec::new(),
            redo_stack: Vec::new(),
            skip_undo: false,
        };
        assert(r@ =~= (EditorView {
            mode: Mode::Viewing,
            cursor_x: 0,
            cursor_y: 0,
            window_width,
            window_height,
            lines: Seq::empty(),
            scroll_y: 0,
            path: Seq::empty(),
            modified: false,
            selection: None,
            undo: Seq::empty(),
            redo: Seq::empty(),
            skip_undo: false,
        }));
        r
    }

    fn clamp_cursor_x(&mut self)
        requires
            old(self)@.line_idx() < old(self)@.lines.len(),
        ensures
            final(self)@ == old(self)@.clamp_x(),
    {
        proof {
            lemma_lines_len(self);
        }
        let line_idx = self.cursor_y as usize + self.scroll_y;
        let new_line_len = byte_count(&self.buffer[line_idx]) as u16;
        if self.cursor_x > new_line_len {
            self.cursor_x = new_line_len;
        }
        assert(self@ =~= old(self)@.clamp_x());
    }

    fn move_up(&mut self)
        requires
            old(self)@.up_ok(),
        ensures
            final(self)@ == old(self)@.up(),
    {
        if self.cursor_y > 0 {
            self.cursor_y = self.cursor_y - 1;
        } else if self.scroll_y > 0 {
            self.scroll_y -= 1;
        }
        assert(self@ =~= old(self)@.row_up());
        self.clamp_cursor_x();
    }

    fn move_down(&mut self)
        requires
            old(self)@.down_ok(),
        ensures
            final(self)@ == old(self)@.down(),
    {
        proof {
            lemma_lines_len(self);
        }
        if self.cursor_y as usize + self.scroll_y < self.buffer.len() - 1 {
            if self.cursor_y < self.window_height - 2 {
                self.cursor_y += 1;
            } else {
                self.scroll_y += 1;
            }
        }
        assert(self@ =~= old(self)@.row_down());
        self.clamp_cursor_x();
    }

    /// Moves the cursor by an arrow key; other keys leave the editor as it is.
    pub fn move_cursor(&mut self, press: Key)
        requires
            old(self)@.move_ok(press),
        ensures
            final(self)@ == old(self)@.after_move(press),
    {
        match press {
            Key::Up => self.move_up(),
            Key::Down => self.move_down(),
            Key::Left => {
                if self.cursor_x > 0 {
                    self.cursor_x = self.cursor_x - 1;
                    assert(self@ =~= old(self)@.after_move(press));
                } else if self.cursor_y > 0 {
                    self.move_up();
                    proof {
                        lemma_lines_len(self);
                    }
                    let line_idx = self.cursor_y as usize + self.scroll_y;
                    let line_len = byte_count(&self.buffer[line_idx]) as u16;
                    self.cursor_x = line_len;
                    assert(self@ =~= old(self)@.after_move(press));
                }
            },
            Key::Right => {
                proof {
                    lemma_lines_len(self);
                }
                let line_idx = self.cursor_y as usize + self.scroll_y;
                let line_len = byte_count(&self.buffer[line_idx]) as u16;
                if self.cursor_x < line_len {
                    self.cursor_x += 1;
                    assert(self@ =~= old(self)@.after_move(press));
                } else if line_idx < self.buffer.len() - 1 {
                    self.move_down();
                    self.cursor_x = 0;
                    assert(self@ =~= old(self)@.after_move(press));
                }
            },
            _ => {},
        }
    }

    /// Starts a selection at the cursor.
    pub fn start_selection(&mut self)
        requires
            old(self)@.line_idx() <= usize::MAX,
        ensures
            final(self)@ == old(self)@.selection_started(),
    {
        self.selection = Some(
            Selection {
                start_x: self.cursor_x,
                start_y: self.cursor_y as usize + self.scroll_y,
                end_x: self.cursor_x,
                end_y: self.cursor_y as usize + self.scroll_y,
            },
        );
        assert(self@ =~= old(self)@.selection_started());
    }

    /// Moves the end of the selection, if there is one, to the cursor.
    pub fn update_selection(&mut self)
        requires
            old(self).selection is Some ==> old(self)@.line_idx() <= usize::MAX,
        ensures
            final(self)@ == old(self)@.selection_updated(),
    {
        if let Some(sel) = self.selection {
            let x = self.cursor_x;
            let y = self.cursor_y as usize + self.scroll_y;
            self.selection = Some(Selection { end_x: x, end_y: y, ..sel });
        }
        assert(self@ =~= old(self)@.selection_updated());
    }

    fn shift_move(&mut self, dir: Key)
        requires
            old(self)@.shift_move_ok(dir),
        ensures
            final(self)@ == old(self)@.shift_moved(dir),
    {
        if self.selection.is_none() {
            self.start_selection();
        }
        self.move_cursor(dir);
        self.update_selection();
    }

    /// Handles one event of the terminal, and says what is left for the surroundings to do.
    pub fn handle_event(&mut self, event: Event) -> (a: Action)
        requires
            old(self)@.event_ok(event),
        ensures
            (final(self)@, a) == old(self)@.after_event(event),
    {
        match event {
            Event::Key(code, modifiers) => match (code, modifiers) {
                (Key::Char('q'), Modifiers::Control) => Action::Quit,
                (Key::Char('s'), Modifiers::Control) => Action::Save,
                (Key::Char('c'), Modifiers::Control) => Action::Copy,
                (Key::Char('v'), Modifiers::Control) => Action::Paste,
                (Key::Char('z'), Modifiers::Control) => Action::Undo,
                (Key::Char('y'), Modifiers::Control) => Action::Redo,
                (Key::Esc, Modifiers::Plain) => {
                    self.mode = Mode::Viewing;
                    assert(self@ =~= old(self)@.after_event(event).0);
                    Action::Continue
                },
                (Key::Char('i'), Modifiers::Plain) if self.mode == Mode::Viewing => {
                    self.mode = Mode::Insert;
                    assert(self@ =~= old(self)@.after_event(event).0);
                    Action::Continue
                },
                (Key::Up, Modifiers::Shift)
                | (Key::Down, Modifiers::Shift)
                | (Key::Left, Modifiers::Shift)
                | (Key::Right, Modifiers::Shift) => {
                    self.shift_move(code);
                    Action::Continue
                },
                (code, _) => {
                    match self.mode {
                        Mode::Viewing => {
                            self.selection = None;
                            assert(self@ =~= old(self)@.unselected());
                            self.move_cursor(code);
                        },
                        Mode::Insert => match code {
                            Key::Up | Key::Down | Key::Left | Key::Right => {
                                self.selection = None;
                                assert(self@ =~= old(self)@.unselected());
                                self.move_cursor(code)
                            },
                            _ => self.check_insert(code),
                        },
                    }
                    Action::Continue
                },
            },
            Event::Resize(width, height) => {
                self.window_width = width;
                self.window_height = height;
                assert(self@ =~= old(self)@.after_event(event).0);
                Action::Continue
            },
            Event::Other => Action::Continue,
        }
    }
}

} // verus!
