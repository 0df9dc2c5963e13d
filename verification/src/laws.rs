//! Properties of the editing operations taken together: what typing does to the text,
//! what one key undoes of another, how keys move the cursor and the selection, what is
//! highlighted, and that the cursor stays in the buffer.

use vstd::prelude::*;
use crate::buffer::{key_for, tab_spaces};
use crate::command::CommandView;
use crate::editor::{is_arrow, Action, EditorView, Event, Key, Mode, Modifiers};
use crate::render::Row;
use crate::selection::{at_or_before, text_between, Selection};
use crate::text::{
    before_byte, byte_len, bytes_between, from_byte, joined, lemma_between_same,
    lemma_between_split, lemma_concat_split, lemma_encode_char, lemma_joined_at,
    lemma_split_at_boundary, lemma_split_between, lines_between, on_boundary, tail_after,
    text_after, text_before,
};
use vstd::utf8::{
    decode_utf8, encode_utf8, group_utf8_lib, is_ascii_chars, is_ascii_chars_encode_utf8,
};

verus! {

impl EditorView {
    /// The joined text before the cursor.
    pub open spec fn before_cursor(self) -> Seq<char> {
        text_before(self.lines, self.cursor_x as int, self.line_idx())
    }

    /// The joined text from the cursor on.
    pub open spec fn after_cursor(self) -> Seq<char> {
        text_after(self.lines, self.cursor_x as int, self.line_idx())
    }

    /// Whether the cursor's byte column is where a character begins, or its line's end.
    pub open spec fn cursor_on_char(self) -> bool {
        on_boundary(self.lines[self.line_idx()], self.cursor_x as int)
    }
}

/// A length cut to 16 bits is no more than the length.
pub proof fn lemma_cut_len(n: nat)
    ensures
        (n as u16) <= n,
{
    if n <= u16::MAX {
        assert((n as u16) == n);
    }
}

/// Whether `c` is an ASCII character.
pub open spec fn ascii(c: char) -> bool {
    is_ascii_chars(seq![c])
}

/// With `l` split at byte column `x`, putting `c` in there and moving one byte column on
/// stands at a character's start only when `c` is one byte, which ASCII is.
proof fn lemma_line_with_ascii(l: Seq<char>, x: int, c: char)
    requires
        on_boundary(l, x),
        ascii(c),
    ensures
        ({
            let n = before_byte(l, x) + seq![c] + from_byte(l, x);
            &&& on_boundary(n, x + 1)
            &&& before_byte(n, x + 1) == before_byte(l, x) + seq![c]
            &&& from_byte(n, x + 1) == from_byte(l, x)
        }),
{
    lemma_split_at_boundary(l, x);
    let b = before_byte(l, x);
    let f = from_byte(l, x);
    lemma_encode_char(c);
    lemma_concat_split(b, seq![c]);
    assert(byte_len(seq![c]) == 1);
    lemma_concat_split(b + seq![c], f);
}

/// Typing an ASCII character or Enter at the start of a character puts it into the text
/// at the cursor, and the cursor after it.
pub proof fn law_type_puts_char_at_cursor(v: EditorView, c: char)
    requires
        v.cursor_in_buffer(),
        ascii(c),
        v.insert_ok(key_for(c)),
    ensures
        v.after_insert(key_for(c)).cursor_in_buffer(),
        v.after_insert(key_for(c)).cursor_on_char(),
        v.after_insert(key_for(c)).before_cursor() == v.before_cursor().push(c),
        v.after_insert(key_for(c)).after_cursor() == v.after_cursor(),
{
    broadcast use group_utf8_lib;

    let w = v.after_insert(key_for(c));
    let l = v.lines;
    let y = v.line_idx();
    let x = v.cursor_x as int;
    let line = l[y];
    lemma_split_at_boundary(line, x);
    if c == '\n' {
        let l2 = w.lines;
        let f = from_byte(line, x);
        assert(w.line_idx() == y + 1);
        assert(l2.len() == l.len() + 1);
        lemma_between_same(l2, l, 0, y);
        assert(lines_between(l2, 0, y + 1) == lines_between(l2, 0, y) + l2[y] + seq!['\n']);
        assert(encode_utf8(f).take(0) =~= Seq::<u8>::empty());
        assert(decode_utf8(Seq::<u8>::empty()) =~= Seq::<char>::empty());
        assert(encode_utf8(f).skip(0) =~= encode_utf8(f));
        assert(before_byte(f, 0) =~= Seq::<char>::empty());
        assert(from_byte(f, 0) == f);
        assert(w.before_cursor() =~= v.before_cursor().push(c));
        assert(l2.skip(y + 2) =~= l.skip(y + 1));
        assert(tail_after(l2, y + 1) == tail_after(l, y));
        assert(w.after_cursor() =~= v.after_cursor());
    } else {
        let l2 = w.lines;
        lemma_line_with_ascii(line, x, c);
        lemma_split_at_boundary(l2[y], x + 1);
        assert(w.line_idx() == y);
        lemma_between_same(l2, l, 0, y);
        assert(w.before_cursor() =~= v.before_cursor().push(c));
        assert(l2.skip(y + 1) =~= l.skip(y + 1));
        assert(w.after_cursor() =~= v.after_cursor());
    }
}

/// Typing an ASCII text character by character, starting at the start of a character,
/// puts the whole text into the joined text at the cursor, and leaves the cursor after it.
pub proof fn law_type_text_at_cursor(v: EditorView, t: Seq<char>)
    requires
        v.cursor_in_buffer(),
        v.cursor_on_char(),
        is_ascii_chars(t),
        v.insert_all_ok(t),
    ensures
        v.insert_all(t).cursor_in_buffer(),
        v.insert_all(t).cursor_on_char(),
        v.insert_all(t).before_cursor() == v.before_cursor() + t,
        v.insert_all(t).after_cursor() == v.after_cursor(),
    decreases t.len(),
{
    if t.len() == 0 {
        assert(v.before_cursor() + t =~= v.before_cursor());
    } else {
        let t0 = t.drop_last();
        assert forall|i: int| 0 <= i < t0.len() implies #[trigger] v.insert_all(
            t0.take(i),
        ).insert_ok(key_for(t0[i])) by {
            assert(t0.take(i) =~= t.take(i));
            assert(v.insert_all(t.take(i)).insert_ok(key_for(t[i])));
        }
        assert(is_ascii_chars(t0)) by {
            assert forall|i| 0 <= i < t0.len() implies '\0' <= #[trigger] t0[i] <= '\u{7f}' by {
                assert(t0[i] == t[i]);
            }
        }
        law_type_text_at_cursor(v, t0);
        let u = v.insert_all(t0);
        assert(t.take(t.len() - 1) =~= t0);
        assert(u.insert_ok(key_for(t[t.len() - 1])));
        assert(ascii(t.last())) by {
            assert(t.last() == t[t.len() - 1]);
        }
        law_type_puts_char_at_cursor(u, t.last());
        assert(v.before_cursor() + t0 + seq![t.last()] =~= v.before_cursor() + t);
    }
}

/// Pasting an ASCII text without a selection, at the start of a character, puts the pasted
/// text into the joined text at the cursor, leaves the cursor after it, and records the
/// paste as one edit.
pub proof fn law_paste_inserts_text(v: EditorView, t: Seq<char>)
    requires
        v.selection is None,
        v.cursor_in_buffer(),
        v.cursor_on_char(),
        is_ascii_chars(t),
        v.paste_ok(Some(t)),
    ensures
        joined(v.after_paste(Some(t)).lines) == v.before_cursor() + t + v.after_cursor(),
        v.after_paste(Some(t)).before_cursor() == v.before_cursor() + t,
        v.after_paste(Some(t)).cursor_in_buffer(),
        v.after_paste(Some(t)).undo.len() == v.undo.len() + 1,
{
    let s = v.paste_start(t);
    assert(s.before_cursor() == v.before_cursor());
    assert(s.after_cursor() == v.after_cursor());
    law_type_text_at_cursor(s, t);
    let w = s.insert_all(t);
    lemma_insert_all_skips_undo(s, t);
    lemma_joined_at(w.lines, w.cursor_x as int, w.line_idx());
}

/// While recording is switched off, typing leaves the undo stack as it is.
pub proof fn lemma_insert_all_skips_undo(v: EditorView, t: Seq<char>)
    requires
        v.skip_undo,
    ensures
        v.insert_all(t).undo == v.undo,
        v.insert_all(t).skip_undo,
    decreases t.len(),
{
    if t.len() > 0 {
        lemma_insert_all_skips_undo(v, t.drop_last());
    }
}

/// Cutting the text from (sx, sy) to (ex, ey) out of `l`, with byte columns: line `sy`
/// keeps its characters before column `sx` and gets those of line `ey` from `ex` on.
pub open spec fn cut_lines(l: Seq<Seq<char>>, sx: int, sy: int, ex: int, ey: int) -> Seq<
    Seq<char>,
> {
    l.take(sy) + seq![before_byte(l[sy], sx) + from_byte(l[ey], ex)] + l.skip(ey + 1)
}

/// The joined text is what comes before a range, the range's text, and what comes after;
/// cutting the range leaves what came before and what came after.
pub proof fn lemma_cut_text(l: Seq<Seq<char>>, sx: int, sy: int, ex: int, ey: int)
    requires
        0 <= sy <= ey < l.len(),
        on_boundary(l[sy], sx),
        on_boundary(l[ey], ex),
        sy == ey ==> sx <= ex,
    ensures
        joined(l) == text_before(l, sx, sy) + text_between(l, sx, sy, ex, ey) + text_after(
            l,
            ex,
            ey,
        ),
        joined(cut_lines(l, sx, sy, ex, ey)) == text_before(l, sx, sy) + text_after(l, ex, ey),
        text_before(cut_lines(l, sx, sy, ex, ey), sx, sy) == text_before(l, sx, sy),
        on_boundary(cut_lines(l, sx, sy, ex, ey)[sy], sx),
        sx <= byte_len(cut_lines(l, sx, sy, ex, ey)[sy]),
{
    let l2 = cut_lines(l, sx, sy, ex, ey);
    let p = before_byte(l[sy], sx);
    let q = from_byte(l[ey], ex);
    lemma_split_at_boundary(l[sy], sx);
    lemma_split_at_boundary(l[ey], ex);
    lemma_concat_split(p, q);
    assert(l2[sy] == p + q);
    assert(l2.len() == sy + 1 + (l.len() - ey - 1));
    assert forall|i: int| 0 <= i < sy implies l2[i] == l[i] by {}
    lemma_between_same(l2, l, 0, sy);
    assert(l2.skip(sy + 1) =~= l.skip(ey + 1));
    assert(tail_after(l2, sy) == tail_after(l, ey));
    lemma_split_at_boundary(l2[sy], sx);
    lemma_joined_at(l2, sx, sy);
    if sy == ey {
        lemma_joined_at(l, sx, sy);
        lemma_split_between(l[sy], sx, ex);
        assert(joined(l) =~= text_before(l, sx, sy) + text_between(l, sx, sy, ex, ey) + text_after(
            l,
            ex,
            ey,
        ));
    } else {
        lemma_joined_at(l, ex, ey);
        lemma_between_split(l, 0, sy, ey);
        lemma_between_split(l, sy, sy + 1, ey);
        assert(lines_between(l, sy, sy + 1) =~= l[sy] + seq!['\n']) by {
            assert(lines_between(l, sy, sy) =~= Seq::<char>::empty());
        }
        assert(joined(l) =~= text_before(l, sx, sy) + text_between(l, sx, sy, ex, ey) + text_after(
            l,
            ex,
            ey,
        ));
    }
}

/// Deleting the selection takes exactly the selected text out of the joined text, records
/// that text, and leaves the cursor where the selected text was.
pub proof fn law_delete_selection_removes_selected_text(v: EditorView)
    requires
        v.selection is Some,
        v.delete_ok(),
        v.selection->0.spec_normalize().1 - v.scroll_y <= u16::MAX,
    ensures
        ({
            let sel = v.selection->0;
            let (sx, sy, ex, ey) = sel.spec_normalize();
            let w = v.after_delete_selection();
            &&& joined(v.lines) == text_before(v.lines, sx as int, sy as int)
                + sel.spec_sel_string(v.lines) + text_after(v.lines, ex as int, ey as int)
            &&& joined(w.lines) == text_before(v.lines, sx as int, sy as int) + text_after(
                v.lines,
                ex as int,
                ey as int,
            )
            &&& w.cursor_in_buffer()
            &&& w.cursor_on_char()
            &&& w.before_cursor() == text_before(v.lines, sx as int, sy as int)
            &&& w.undo == (if v.skip_undo {
                v.undo
            } else {
                v.undo.push(
                    CommandView::DeleteSelection {
                        start_x: sx as usize,
                        start_y: sy,
                        text: sel.spec_sel_string(v.lines),
                    },
                )
            })
        }),
{
    let sel = v.selection->0;
    let (sx, sy, ex, ey) = sel.spec_normalize();
    let w = v.after_delete_selection();
    assert(w.lines == cut_lines(v.lines, sx as int, sy as int, ex as int, ey as int));
    lemma_cut_text(v.lines, sx as int, sy as int, ex as int, ey as int);
    assert(w.line_idx() == sy);
}

/// Pasting the selected text, when it is ASCII, over the selection (what copying and then
/// pasting does) leaves the joined text as it was.
pub proof fn law_paste_over_copied_selection_keeps_text(v: EditorView)
    requires
        v.selection is Some,
        v.selection->0.spec_normalize().1 - v.scroll_y <= u16::MAX,
        is_ascii_chars(v.selection->0.spec_sel_string(v.lines)),
        v.paste_ok(Some(v.selection->0.spec_sel_string(v.lines))),
    ensures
        joined(v.after_paste(Some(v.selection->0.spec_sel_string(v.lines))).lines) == joined(
            v.lines,
        ),
{
    let sel = v.selection->0;
    let t = sel.spec_sel_string(v.lines);
    let (sx, sy, ex, ey) = sel.spec_normalize();
    law_delete_selection_removes_selected_text(v);
    let d = v.after_delete_selection();
    assert(d.selection is None);
    assert(d == v.without_selection());
    law_paste_inserts_text(d, t);
    assert(v.after_paste(Some(t)) == d.paste_start(t).insert_all(t));
    lemma_joined_at(d.lines, d.cursor_x as int, d.line_idx());
    assert(d.after_cursor() == text_after(v.lines, ex as int, ey as int)) by {
        let a = d.before_cursor();
        assert((a + d.after_cursor()).skip(a.len() as int) =~= d.after_cursor());
        assert((a + text_after(v.lines, ex as int, ey as int)).skip(a.len() as int)
            =~= text_after(v.lines, ex as int, ey as int));
    }
}

/// Typing a character and then Backspace, when Backspace can be typed there, gives back
/// the lines and the cursor.
pub proof fn law_backspace_undoes_char(v: EditorView, c: char)
    requires
        v.insert_ok(Key::Char(c)),
        v.after_insert(Key::Char(c)).insert_ok(Key::Backspace),
    ensures
        v.after_insert(Key::Char(c)).after_insert(Key::Backspace).lines == v.lines,
        v.after_insert(Key::Char(c)).after_insert(Key::Backspace).cursor_x == v.cursor_x,
        v.after_insert(Key::Char(c)).after_insert(Key::Backspace).cursor_y == v.cursor_y,
        v.after_insert(Key::Char(c)).after_insert(Key::Backspace).scroll_y == v.scroll_y,
{
    let y = v.line_idx();
    let x = v.cursor_x as int;
    let line = v.lines[y];
    let w = v.after_insert(Key::Char(c));
    lemma_split_at_boundary(line, x);
    let b = before_byte(line, x);
    let f = from_byte(line, x);
    assert(w.lines[y] == b + seq![c] + f);
    lemma_concat_split(b, seq![c] + f);
    assert(b + seq![c] + f =~= b + (seq![c] + f));
    assert((seq![c] + f).drop_first() =~= f);
    assert(w.after_insert(Key::Backspace).lines =~= v.lines);
}

/// Enter and then Backspace gives back the lines and the cursor.
pub proof fn law_backspace_undoes_enter(v: EditorView)
    requires
        v.insert_ok(Key::Enter),
        v.lines.len() <= usize::MAX,
    ensures
        v.after_insert(Key::Enter).insert_ok(Key::Backspace),
        v.after_insert(Key::Enter).after_insert(Key::Backspace).lines == v.lines,
        v.after_insert(Key::Enter).after_insert(Key::Backspace).cursor_x == v.cursor_x,
        v.after_insert(Key::Enter).after_insert(Key::Backspace).cursor_y == v.cursor_y,
        v.after_insert(Key::Enter).after_insert(Key::Backspace).scroll_y == v.scroll_y,
{
    let y = v.line_idx();
    let x = v.cursor_x as int;
    let line = v.lines[y];
    let w = v.after_insert(Key::Enter);
    lemma_split_at_boundary(line, x);
    assert(w.lines[y] == before_byte(line, x));
    assert(w.lines[y + 1] == from_byte(line, x));
    assert((byte_len(before_byte(line, x)) as u16) == v.cursor_x);
    assert(w.after_insert(Key::Backspace).lines =~= v.lines);
}

/// Typing keeps the cursor on a line of the buffer, at most at the line's end.
pub proof fn law_typing_keeps_cursor_in_buffer(v: EditorView, key: Key)
    requires
        v.cursor_in_buffer(),
        v.insert_ok(key),
    ensures
        v.after_insert(key).cursor_in_buffer(),
{
    let y = v.line_idx();
    let x = v.cursor_x as int;
    let line = v.lines[y];
    match key {
        Key::Char(c) => {
            lemma_split_at_boundary(line, x);
            let b = before_byte(line, x);
            lemma_encode_char(c);
            lemma_concat_split(b, seq![c]);
            lemma_concat_split(b + seq![c], from_byte(line, x));
        },
        Key::Tab => {
            lemma_split_at_boundary(line, x);
            let b = before_byte(line, x);
            let sp = seq![' ', ' ', ' ', ' '];
            assert(is_ascii_chars(sp));
            vstd::utf8::is_ascii_chars_encode_utf8(sp);
            lemma_concat_split(b, sp);
            lemma_concat_split(b + sp, from_byte(line, x));
        },
        Key::Backspace => {
            if x > 0 {
                lemma_split_at_boundary(line, x - 1);
                lemma_concat_split(before_byte(line, x - 1), from_byte(line, x - 1).drop_first());
            } else if y > 0 {
                lemma_cut_len(byte_len(v.lines[y - 1]));
                lemma_concat_split(v.lines[y - 1], line);
            }
        },
        _ => {},
    }
}

/// Moving the cursor keeps it on a line of the buffer, at most at the line's end.
pub proof fn law_moving_keeps_cursor_in_buffer(v: EditorView, key: Key)
    requires
        v.cursor_in_buffer(),
        v.move_ok(key),
    ensures
        v.after_move(key).cursor_in_buffer(),
{
    let y = v.line_idx();
    lemma_cut_len(byte_len(v.lines[y]));
    match key {
        Key::Up => {
            lemma_cut_len(byte_len(v.row_up().lines[v.row_up().line_idx()]));
        },
        Key::Down => {
            lemma_cut_len(byte_len(v.row_down().lines[v.row_down().line_idx()]));
        },
        Key::Left => {
            if v.cursor_x == 0 && v.cursor_y > 0 {
                lemma_cut_len(byte_len(v.row_up().lines[v.row_up().line_idx()]));
            }
        },
        Key::Right => {
            lemma_cut_len(byte_len(v.row_down().lines[v.row_down().line_idx()]));
        },
        _ => {},
    }
}

/// Right and then Left, before the end of a line, bring the cursor back.
pub proof fn law_right_then_left_returns(v: EditorView)
    requires
        v.line_idx() < v.lines.len(),
        v.cursor_x < v.line_len(v.line_idx()),
    ensures
        v.after_move(Key::Right).move_ok(Key::Left),
        v.after_move(Key::Right).after_move(Key::Left) == v,
{
    assert(v.after_move(Key::Right).after_move(Key::Left) =~= v);
}

/// Left and then Right, after the start of a line and not past its end, bring the
/// cursor back.
pub proof fn law_left_then_right_returns(v: EditorView)
    requires
        v.line_idx() < v.lines.len(),
        0 < v.cursor_x <= v.line_len(v.line_idx()),
    ensures
        v.after_move(Key::Left).move_ok(Key::Right),
        v.after_move(Key::Left).after_move(Key::Right) == v,
{
    assert(v.after_move(Key::Left).after_move(Key::Right) =~= v);
}

/// Up and then Down, from a row below the top, bring the cursor back to its row and line
/// when it did not stand on the window's last text row.
pub proof fn law_up_then_down_returns_to_line(v: EditorView)
    requires
        v.line_idx() < v.lines.len(),
        v.cursor_y > 0,
        v.cursor_y + 2 <= v.window_height,
    ensures
        v.move_ok(Key::Up),
        v.after_move(Key::Up).move_ok(Key::Down),
        v.after_move(Key::Up).after_move(Key::Down).cursor_y == v.cursor_y,
        v.after_move(Key::Up).after_move(Key::Down).scroll_y == v.scroll_y,
        v.after_move(Key::Up).after_move(Key::Down).line_idx() == v.line_idx(),
{
}

/// Backspace and Delete, typed in insert mode over a selection, both delete it: the
/// selected text leaves the joined text, nothing else does, the selection is gone, the
/// buffer counts as modified and the cursor stands where the selected text began.
pub proof fn law_backspace_and_delete_remove_selection(v: EditorView, key: Key)
    requires
        key == Key::Backspace || key == Key::Delete,
        v.selection is Some,
        v.check_insert_ok(key),
        v.selection->0.spec_normalize().1 - v.scroll_y <= u16::MAX,
    ensures
        ({
            let sel = v.selection->0;
            let (sx, sy, ex, ey) = sel.spec_normalize();
            let w = v.after_check_insert(key);
            &&& joined(v.lines) == text_before(v.lines, sx as int, sy as int)
                + sel.spec_sel_string(v.lines) + text_after(v.lines, ex as int, ey as int)
            &&& joined(w.lines) == text_before(v.lines, sx as int, sy as int) + text_after(
                v.lines,
                ex as int,
                ey as int,
            )
            &&& w.selection is None
            &&& w.modified
            &&& w.cursor_in_buffer()
            &&& w.before_cursor() == text_before(v.lines, sx as int, sy as int)
            &&& w.after_cursor() == text_after(v.lines, ex as int, ey as int)
            &&& w == v.after_check_insert(Key::Backspace)
            &&& w == v.after_check_insert(Key::Delete)
            &&& w == v.after_delete_selection()
        }),
{
    let sel = v.selection->0;
    let (sx, sy, ex, ey) = sel.spec_normalize();
    law_delete_selection_removes_selected_text(v);
    let d = v.after_delete_selection();
    lemma_joined_at(d.lines, d.cursor_x as int, d.line_idx());
    assert(d.after_cursor() == text_after(v.lines, ex as int, ey as int)) by {
        let a = d.before_cursor();
        assert((a + d.after_cursor()).skip(a.len() as int) =~= d.after_cursor());
        assert((a + text_after(v.lines, ex as int, ey as int)).skip(a.len() as int)
            =~= text_after(v.lines, ex as int, ey as int));
    }
}

/// An ASCII character or Enter, typed in insert mode over a selection, replaces the
/// selected text in the joined text, and the cursor stands right after it.
pub proof fn law_typing_replaces_selection(v: EditorView, c: char)
    requires
        ascii(c),
        v.selection is Some,
        v.check_insert_ok(key_for(c)),
        v.selection->0.spec_normalize().1 - v.scroll_y <= u16::MAX,
    ensures
        ({
            let (sx, sy, ex, ey) = v.selection->0.spec_normalize();
            let w = v.after_check_insert(key_for(c));
            &&& joined(w.lines) == text_before(v.lines, sx as int, sy as int) + seq![c]
                + text_after(v.lines, ex as int, ey as int)
            &&& w.selection is None
            &&& w.cursor_in_buffer()
            &&& w.before_cursor() == text_before(v.lines, sx as int, sy as int).push(c)
            &&& w.after_cursor() == text_after(v.lines, ex as int, ey as int)
        }),
{
    let (sx, sy, ex, ey) = v.selection->0.spec_normalize();
    law_backspace_and_delete_remove_selection(v, Key::Delete);
    let d = v.after_delete_selection();
    assert(key_for(c) is Char || key_for(c) is Enter);
    law_type_puts_char_at_cursor(d, c);
    let w = v.after_check_insert(key_for(c));
    assert(w == d.after_insert(key_for(c)));
    lemma_joined_at(w.lines, w.cursor_x as int, w.line_idx());
    assert(joined(w.lines) =~= text_before(v.lines, sx as int, sy as int) + seq![c]
        + text_after(v.lines, ex as int, ey as int));
}

/// Whether character `i` of line `line` lies in the range from column `sx` of line `sy`
/// up to (not including) column `ex` of line `ey`, in reading order.
pub open spec fn in_range(sx: int, sy: int, ex: int, ey: int, line: int, i: int) -> bool {
    at_or_before(sx, sy, i, line) && !at_or_before(ex, ey, i, line)
}

/// A row showing a buffer line shows its characters in order, each highlighted exactly
/// when it lies in the selected range; without a selection nothing is highlighted. So a
/// line strictly between the selection's first and last lines is highlighted whole.
pub proof fn law_highlight_is_selected_range(v: EditorView, row: int, r: Row)
    requires
        v.row_shown(row, r),
        0 <= row + v.scroll_y < v.lines.len(),
    ensures
        match r {
            Row::Line { number, cells } => {
                let bl = row + v.scroll_y;
                &&& cells@.len() == v.lines[bl].len()
                &&& forall|i: int|
                    0 <= i < cells@.len() ==> (#[trigger] cells@[i]).0 == v.lines[bl][i]
                        && cells@[i].1 == (match v.selection {
                        Some(sel) => {
                            let (sx, sy, ex, ey) = sel.spec_normalize();
                            in_range(sx as int, sy as int, ex as int, ey as int, bl, i)
                        },
                        None => false,
                    })
            },
            Row::Filler => false,
        },
{
    let bl = row + v.scroll_y;
    match r {
        Row::Line { number, cells } => {
            assert forall|i: int| 0 <= i < cells@.len() implies (#[trigger] cells@[i]).0
                == v.lines[bl][i] && cells@[i].1 == (match v.selection {
                Some(sel) => {
                    let (sx, sy, ex, ey) = sel.spec_normalize();
                    in_range(sx as int, sy as int, ex as int, ey as int, bl, i)
                },
                None => false,
            }) by {
                assert(crate::render::cell_shows(cells@[i], v.lines[bl][i], crate::render::highlighted(
                    v.selection is Some,
                    v.selection_bounds().0 as int,
                    v.selection_bounds().1 as int,
                    v.selection_bounds().2 as int,
                    v.selection_bounds().3 as int,
                    bl,
                    i,
                )));
            }
        },
        Row::Filler => {},
    }
}

/// A newly started selection is empty and sits at the cursor: both its ends are the
/// cursor's column on the buffer line the cursor is on, whatever the scroll; nothing
/// else changes.
pub proof fn law_started_selection_is_empty_at_cursor(v: EditorView)
    requires
        v.cursor_y + v.scroll_y <= usize::MAX,
        v.cursor_in_buffer(),
    ensures
        v.selection_started().selection == Some(
            Selection {
                start_x: v.cursor_x,
                start_y: (v.cursor_y + v.scroll_y) as usize,
                end_x: v.cursor_x,
                end_y: (v.cursor_y + v.scroll_y) as usize,
            },
        ),
        v.selection_started().selection->0.start_y == v.cursor_y + v.scroll_y,
        v.selection_started().selection->0.spec_sel_string(v.lines) == Seq::<char>::empty(),
        v.selection_started().unselected() == v.unselected(),
{
    broadcast use group_utf8_lib;

    let y = v.cursor_y + v.scroll_y;
    let x = v.cursor_x as int;
    let e = encode_utf8(v.lines[y]);
    assert(e.subrange(x, x) =~= Seq::<u8>::empty());
    assert(decode_utf8(Seq::<u8>::empty()) =~= Seq::<char>::empty());
    assert(v.selection_started().unselected() =~= v.unselected());
}

/// Shift and an arrow select from where the cursor was to where it moves: with no
/// selection the new one starts at the cursor's old buffer position, an existing one
/// keeps its start; the end follows the cursor, which moves as the arrow alone moves it.
pub proof fn law_shift_arrow_selects_to_cursor(v: EditorView, k: Key)
    requires
        is_arrow(k),
        v.event_ok(Event::Key(k, Modifiers::Shift)),
    ensures
        ({
            let (w, a) = v.after_event(Event::Key(k, Modifiers::Shift));
            let m = v.after_move(k);
            &&& a == Action::Continue
            &&& w.lines == v.lines
            &&& w.cursor_x == m.cursor_x
            &&& w.cursor_y == m.cursor_y
            &&& w.scroll_y == m.scroll_y
            &&& w.selection is Some
            &&& w.selection->0.end_x == m.cursor_x
            &&& w.selection->0.end_y == m.cursor_y + m.scroll_y
            &&& v.selection is None ==> w.selection->0.start_x == v.cursor_x
                && w.selection->0.start_y == v.cursor_y + v.scroll_y
            &&& v.selection is Some ==> w.selection->0.start_x == v.selection->0.start_x
                && w.selection->0.start_y == v.selection->0.start_y
        }),
{
}

/// An arrow without Shift, in either mode, drops the selection and moves the cursor as
/// the arrow alone moves it, leaving the text and the mode as they were.
pub proof fn law_plain_arrow_drops_selection(v: EditorView, k: Key, mods: Modifiers)
    requires
        is_arrow(k),
        mods != Modifiers::Shift,
        v.event_ok(Event::Key(k, mods)),
    ensures
        ({
            let (w, a) = v.after_event(Event::Key(k, mods));
            let m = v.after_move(k);
            &&& a == Action::Continue
            &&& w.selection is None
            &&& w.lines == v.lines
            &&& w.mode == v.mode
            &&& w.cursor_x == m.cursor_x
            &&& w.cursor_y == m.cursor_y
            &&& w.scroll_y == m.scroll_y
        }),
{
}

/// Down moves the cursor to the next buffer line, or keeps it on the last one; its column
/// stays where that line is long enough and otherwise goes to that line's end (a length
/// cut to 16 bits, as the column is).
pub proof fn law_down_moves_to_next_line(v: EditorView)
    requires
        v.lines.len() <= usize::MAX,
        v.line_idx() < v.lines.len(),
        v.move_ok(Key::Down),
    ensures
        ({
            let w = v.after_move(Key::Down);
            let n = w.cursor_y + w.scroll_y;
            &&& n == (if v.cursor_y + v.scroll_y + 1 < v.lines.len() {
                v.cursor_y + v.scroll_y + 1
            } else {
                v.cursor_y + v.scroll_y
            })
            &&& w.cursor_x == vstd::math::min(
                v.cursor_x as int,
                (byte_len(v.lines[n]) as u16) as int,
            )
            &&& w.lines == v.lines
            &&& w.selection == v.selection
        }),
{
}

/// Up moves the cursor to the buffer line above, or keeps it on the first one; its column
/// stays where that line is long enough and otherwise goes to that line's end.
pub proof fn law_up_moves_to_line_above(v: EditorView)
    requires
        v.line_idx() < v.lines.len(),
    ensures
        v.move_ok(Key::Up),
        ({
            let w = v.after_move(Key::Up);
            let n = w.cursor_y + w.scroll_y;
            &&& n == (if v.cursor_y + v.scroll_y > 0 {
                v.cursor_y + v.scroll_y - 1
            } else {
                0
            })
            &&& w.cursor_x == vstd::math::min(
                v.cursor_x as int,
                (byte_len(v.lines[n]) as u16) as int,
            )
            &&& w.lines == v.lines
            &&& w.selection == v.selection
        }),
{
}

/// Left steps one column back on the line; at a line's start on a row below the top it
/// goes to the end of the line above, and on the top row it stays.
pub proof fn law_left_steps_back(v: EditorView)
    requires
        v.line_idx() < v.lines.len(),
    ensures
        v.move_ok(Key::Left),
        ({
            let w = v.after_move(Key::Left);
            let n = w.cursor_y + w.scroll_y;
            &&& v.cursor_x > 0 ==> n == v.cursor_y + v.scroll_y && w.cursor_x == v.cursor_x - 1
            &&& v.cursor_x == 0 && v.cursor_y > 0 ==> n == v.cursor_y + v.scroll_y - 1
                && w.cursor_x == byte_len(v.lines[n]) as u16
            &&& v.cursor_x == 0 && v.cursor_y == 0 ==> w == v
            &&& w.lines == v.lines
        }),
{
}

/// Right steps one column on along the line; at a line's end it goes to the start of the
/// next line, and at the end of the last line it stays.
pub proof fn law_right_steps_on(v: EditorView)
    requires
        v.lines.len() <= usize::MAX,
        v.line_idx() < v.lines.len(),
        v.move_ok(Key::Right),
    ensures
        ({
            let w = v.after_move(Key::Right);
            let n = w.cursor_y + w.scroll_y;
            let len = byte_len(v.lines[v.line_idx()]) as u16;
            &&& v.cursor_x < len ==> n == v.cursor_y + v.scroll_y && w.cursor_x == v.cursor_x + 1
            &&& v.cursor_x >= len && v.line_idx() + 1 < v.lines.len() ==> n == v.cursor_y
                + v.scroll_y + 1 && w.cursor_x == 0
            &&& v.cursor_x >= len && v.line_idx() + 1 == v.lines.len() ==> w == v
            &&& w.lines == v.lines
        }),
{
}

/// Tab, typed where a character begins, puts four spaces into the text at the cursor and
/// leaves the cursor after them.
pub proof fn law_tab_puts_four_spaces(v: EditorView)
    requires
        v.cursor_in_buffer(),
        v.insert_ok(Key::Tab),
    ensures
        ({
            let w = v.after_insert(Key::Tab);
            &&& w.cursor_in_buffer()
            &&& w.cursor_on_char()
            &&& w.cursor_x == v.cursor_x + 4
            &&& w.before_cursor() == v.before_cursor() + seq![' ', ' ', ' ', ' ']
            &&& w.after_cursor() == v.after_cursor()
        }),
{
    let w = v.after_insert(Key::Tab);
    let l = v.lines;
    let y = v.line_idx();
    let x = v.cursor_x as int;
    let line = l[y];
    let sp = tab_spaces();
    lemma_split_at_boundary(line, x);
    let b = before_byte(line, x);
    let f = from_byte(line, x);
    assert(is_ascii_chars(sp));
    is_ascii_chars_encode_utf8(sp);
    lemma_concat_split(b, sp);
    lemma_concat_split(b + sp, f);
    assert(w.lines[y] == b + sp + f);
    assert(w.line_idx() == y);
    lemma_between_same(w.lines, l, 0, y);
    assert(w.before_cursor() =~= v.before_cursor() + seq![' ', ' ', ' ', ' ']);
    assert(w.lines.skip(y + 1) =~= l.skip(y + 1));
    assert(w.after_cursor() =~= v.after_cursor());
}

/// In insert mode over a selection, a key that neither deletes nor types (an arrow aside)
/// changes nothing.
pub proof fn law_other_keys_keep_selection(v: EditorView, key: Key)
    requires
        v.selection is Some,
        !(key is Backspace || key is Delete || key is Char || key is Enter || key is Tab),
    ensures
        v.after_check_insert(key) == v,
{
}

/// Esc switches to viewing, and `i` while viewing to inserting, and nothing else changes;
/// `i` while inserting is typed like any other character.
pub proof fn law_mode_keys(v: EditorView)
    ensures
        v.after_event(Event::Key(Key::Esc, Modifiers::Plain)) == (
            EditorView { mode: Mode::Viewing, ..v },
            Action::Continue,
        ),
        v.mode == Mode::Viewing ==> v.after_event(Event::Key(Key::Char('i'), Modifiers::Plain))
            == (EditorView { mode: Mode::Insert, ..v }, Action::Continue),
        v.mode == Mode::Insert ==> v.after_event(Event::Key(Key::Char('i'), Modifiers::Plain))
            == (v.after_check_insert(Key::Char('i')), Action::Continue),
{
}

/// The Control keys q, s, c, v, z and y change nothing here and hand on their request:
/// quit, save, copy, paste, undo and redo.
pub proof fn law_control_keys_hand_on(v: EditorView, c: char)
    requires
        c == 'q' || c == 's' || c == 'c' || c == 'v' || c == 'z' || c == 'y',
    ensures
        v.after_event(Event::Key(Key::Char(c), Modifiers::Control)).0 == v,
        v.after_event(Event::Key(Key::Char(c), Modifiers::Control)).1 == (if c == 'q' {
            Action::Quit
        } else if c == 's' {
            Action::Save
        } else if c == 'c' {
            Action::Copy
        } else if c == 'v' {
            Action::Paste
        } else if c == 'z' {
            Action::Undo
        } else {
            Action::Redo
        }),
{
}

} // verus!
