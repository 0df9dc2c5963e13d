//! What the screen shows: the numbered lines with the selection highlighted, the status
//! line, and where the terminal cursor goes.

use vstd::prelude::*;
use vstd::utf8::encode_utf8;
use crate::editor::{lemma_lines_len, Editor, EditorView, Key, Mode};
use crate::selection::Selection;
use crate::text::{char_count, chars_of, push_char};

verus! {

/// The decimal digit `d`.
pub open spec fn digit(d: int) -> char {
    (48 + d) as char
}

/// The decimal numeral of `n`, without leading zeros.
pub open spec fn decimal(n: nat) -> Seq<char>
    decreases n,
{
    if n < 10 {
        seq![digit(n as int)]
    } else {
        decimal(n / 10).push(digit((n % 10) as int))
    }
}

/// `n` spaces.
pub open spec fn spaces(n: int) -> Seq<char>
    decreases n,
{
    if n <= 0 {
        Seq::empty()
    } else {
        spaces(n - 1).push(' ')
    }
}

/// `s` with spaces in front to make it at least `width` characters long.
pub open spec fn pad_left(s: Seq<char>, width: int) -> Seq<char> {
    spaces(width - s.len()) + s
}

/// The number of bytes of `s` in UTF-8 (a string's bytes are counted in a `usize`).
pub open spec fn utf8_len(s: Seq<char>) -> int {
    encode_utf8(s).len() as int
}

/// Whether character `i` of buffer line `line` is drawn highlighted, for a selection
/// from (sx, sy) to (ex, ey) in reading order.
pub open spec fn highlighted(
    has_selection: bool,
    sx: int,
    sy: int,
    ex: int,
    ey: int,
    line: int,
    i: int,
) -> bool {
    has_selection && if sy == ey {
        line == sy && i >= sx && i < ex
    } else if line == sy {
        i >= sx
    } else if line == ey {
        i < ex
    } else {
        line > sy && line < ey
    }
}

/// Whether the cell `g` of a row shows character `c`, highlighted or not as `h` says.
pub open spec fn cell_shows(g: (char, bool), c: char, h: bool) -> bool {
    g.0 == c && g.1 == h
}

/// A row of the text area: a numbered line of the buffer, or a row past its end.
pub enum Row {
    /// The line's number, padded, and its characters, each with whether it is highlighted.
    Line { number: String, cells: Vec<(char, bool)> },
    Filler,
}

/// A whole screen.
pub struct Frame {
    /// The rows of the text area, top to bottom.
    pub rows: Vec<Row>,
    /// The status line, padded with spaces to the window's width.
    pub status: String,
    /// Where the terminal cursor goes.
    pub cursor_col: u16,
    pub cursor_row: u16,
}

impl EditorView {
    /// The width of the line numbers' column: the digits of the number of lines, and two.
    pub open spec fn number_width(self) -> int {
        decimal(self.lines.len()).len() + 2int
    }

    /// The status line before padding.
    pub open spec fn status_text(self) -> Seq<char> {
        seq!['x', ':', ' '] + decimal((self.cursor_x + 1) as nat) + seq![',', ' ', 'y', ':', ' ']
            + decimal((self.cursor_y + 1) as nat) + seq![' ', ' ', 'M', 'O', 'D', 'E', ':']
            + (if self.mode == Mode::Viewing {
            seq!['V', 'I', 'E', 'W', 'I', 'N', 'G']
        } else {
            seq!['I', 'N', 'S', 'E', 'R', 'T']
        }) + seq![' ', ' ', 'F', 'I', 'L', 'E', ':'] + self.path + seq![' ', ' ', ' '] + (
        if self.modified {
            seq!['[', '+', ']']
        } else {
            Seq::empty()
        })
    }

    /// The selection's ends in reading order, or zeros without a selection.
    pub open spec fn selection_bounds(self) -> (u16, usize, u16, usize) {
        match self.selection {
            Some(sel) => sel.spec_normalize(),
            None => (0, 0, 0, 0),
        }
    }

    /// Whether `r` shows row `row` of the text area: the buffer line `row + scroll_y`
    /// with its number right-aligned and a space, and its characters, highlighted where
    /// selected; a row past the end of the buffer is a filler row.
    pub open spec fn row_shown(self, row: int, r: Row) -> bool {
        let bl = row + self.scroll_y;
        let (sx, sy, ex, ey) = self.selection_bounds();
        if bl < self.lines.len() {
            match r {
                Row::Line { number, cells } => {
                    &&& number@ == pad_left(decimal((bl + 1) as nat), self.number_width() - 2)
                        + seq![' ']
                    &&& cells@.len() == self.lines[bl].len()
                    &&& forall|i: int|
                        0 <= i < cells@.len() ==> #[trigger] cell_shows(
                            cells@[i],
                            self.lines[bl][i],
                            highlighted(
                                self.selection is Some,
                                sx as int,
                                sy as int,
                                ex as int,
                                ey as int,
                                bl,
                                i,
                            ),
                        )
                },
                Row::Filler => false,
            }
        } else {
            r is Filler
        }
    }

    /// Whether a screen can be drawn: at least the status row, cursor positions that fit
    /// 16 bits, and rows whose buffer lines fit a `usize`.
    pub open spec fn frame_ok(self) -> bool {
        &&& self.window_height >= 1
        &&& self.window_height >= 2 ==> self.scroll_y + self.window_height - 2 <= usize::MAX
        &&& self.cursor_x + 1 <= u16::MAX
        &&& self.cursor_y + 1 <= u16::MAX
        &&& self.cursor_x + self.number_width() <= u16::MAX
    }
}

impl Editor {
    /// The screen for the current state: one row for each row of the window above the
    /// status line, the status line padded to the window's width (counted in bytes, as
    /// the terminal is written), and the cursor after the line numbers' column.
    pub fn frame(&self) -> (r: Frame)
        requires
            self@.frame_ok(),
        ensures
            r.rows@.len() == self.window_height - 1,
            forall|row: int| 0 <= row < r.rows@.len() ==> self@.row_shown(row, #[trigger] r.rows@[row]),
            r.status@ == self@.status_text() + spaces(
                self.window_width - (utf8_len(self@.status_text()) as usize),
            ),
            r.cursor_col == self.cursor_x + self@.number_width() - 1,
            r.cursor_row == self.cursor_y,
    {
        proof {
            lemma_lines_len(self);
            lemma_decimal_usize(self.buffer.len());
        }
        let digits = char_count(&decimal_string(self.buffer.len()));
        let line_number_width: u16 = digits as u16 + 2;
        let (sel_start_x, sel_start_y, sel_end_x, sel_end_y) = match &self.selection {
            Some(sel) => sel.normalize(),
            None => (0, 0, 0, 0),
        };
        let has_selection = self.selection.is_some();
        let ghost v = self@;
        let mut rows: Vec<Row> = Vec::new();
        let height = self.window_height - 1;
        for row in 0..height
            invariant
                v == self@,
                v.frame_ok(),
                height == self.window_height - 1,
                line_number_width == v.number_width(),
                digits == line_number_width - 2,
                (sel_start_x, sel_start_y, sel_end_x, sel_end_y) == v.selection_bounds(),
                has_selection == v.selection is Some,
                v.lines.len() == self.buffer@.len(),
                rows@.len() == row,
                forall|k: int| 0 <= k < row ==> v.row_shown(k, #[trigger] rows@[k]),
        {
            let buffer_line = row as usize + self.scroll_y;
            if buffer_line < self.buffer.len() {
                let r = self.line_row(buffer_line, digits, has_selection, (sel_start_x, sel_start_y, sel_end_x, sel_end_y));
                assert(v.row_shown(row as int, r));
                rows.push(r);
            } else {
                assert(v.row_shown(row as int, Row::Filler));
                rows.push(Row::Filler);
            }
        }
        let status = self.status_line();
        let status_bytes = status.as_str().len();
        let pad = if (self.window_width as usize) > status_bytes {
            self.window_width as usize - status_bytes
        } else {
            0
        };
        let mut status_padded = status;
        push_spaces(&mut status_padded, pad);
        Frame {
            rows,
            status: status_padded,
            cursor_col: self.cursor_x + line_number_width - 1,
            cursor_row: self.cursor_y,
        }
    }

    fn line_row(
        &self,
        buffer_line: usize,
        digits: usize,
        has_selection: bool,
        bounds: (u16, usize, u16, usize),
    ) -> (r: Row)
        requires
            buffer_line < self@.lines.len(),
            digits == self@.number_width() - 2,
            has_selection == self.selection is Some,
            bounds == self@.selection_bounds(),
        ensures
            r matches Row::Line { number, cells } && self@.row_shown(
                buffer_line - self.scroll_y,
                r,
            ),
    {
        let ghost v = self@;
        let (sel_start_x, sel_start_y, sel_end_x, sel_end_y) = bounds;
        proof {
            lemma_lines_len(self);
        }
        let line = &self.buffer[buffer_line];
        let num = decimal_string(buffer_line + 1);
        let nd = char_count(&num);
        let mut number = String::new();
        if nd < digits {
            push_spaces(&mut number, digits - nd);
        }
        number.append(num.as_str());
        push_char(&mut number, ' ');
        assert(number@ =~= pad_left(decimal((buffer_line + 1) as nat), v.number_width() - 2) + seq![
            ' ',
        ]);
        let chars = chars_of(line.as_str());
        let n = chars.len();
        let mut cells: Vec<(char, bool)> = Vec::new();
        let mut i: usize = 0;
        while i < n
            invariant
                chars@ == v.lines[buffer_line as int],
                n == chars@.len(),
                i <= n,
                cells@.len() == i,
                forall|k: int|
                    0 <= k < i ==> #[trigger] cell_shows(
                        cells@[k],
                        v.lines[buffer_line as int][k],
                        highlighted(
                            has_selection,
                            sel_start_x as int,
                            sel_start_y as int,
                            sel_end_x as int,
                            sel_end_y as int,
                            buffer_line as int,
                            k,
                        ),
                    ),
            decreases n - i,
        {
            let shown = has_selection && if sel_start_y == sel_end_y {
                buffer_line == sel_start_y && i >= sel_start_x as usize && i < sel_end_x as usize
            } else if buffer_line == sel_start_y {
                i >= sel_start_x as usize
            } else if buffer_line == sel_end_y {
                i < sel_end_x as usize
            } else {
                buffer_line > sel_start_y && buffer_line < sel_end_y
            };
            cells.push((chars[i], shown));
            i += 1;
        }
        Row::Line { number, cells }
    }

    fn status_line(&self) -> (r: String)
        requires
            self@.frame_ok(),
        ensures
            r@ == self@.status_text(),
    {
        proof {
            reveal_strlit("x: ");
            reveal_strlit(", y: ");
            reveal_strlit("  MODE:");
            reveal_strlit("VIEWING");
            reveal_strlit("INSERT");
            reveal_strlit("  FILE:");
            reveal_strlit("   ");
            reveal_strlit("[+]");
            assert("x: "@ =~= seq!['x', ':', ' ']);
            assert(", y: "@ =~= seq![',', ' ', 'y', ':', ' ']);
            assert("  MODE:"@ =~= seq![' ', ' ', 'M', 'O', 'D', 'E', ':']);
            assert("VIEWING"@ =~= seq!['V', 'I', 'E', 'W', 'I', 'N', 'G']);
            assert("INSERT"@ =~= seq!['I', 'N', 'S', 'E', 'R', 'T']);
            assert("  FILE:"@ =~= seq![' ', ' ', 'F', 'I', 'L', 'E', ':']);
            assert("   "@ =~= seq![' ', ' ', ' ']);
            assert("[+]"@ =~= seq!['[', '+', ']']);
        }
        let mut s = String::from_str("x: ");
        s.append(decimal_string((self.cursor_x + 1) as usize).as_str());
        s.append(", y: ");
        s.append(decimal_string((self.cursor_y + 1) as usize).as_str());
        s.append("  MODE:");
        match self.mode {
            Mode::Viewing => s.append("VIEWING"),
            Mode::Insert => s.append("INSERT"),
        }
        s.append("  FILE:");
        s.append(self.path.as_str());
        s.append("   ");
        if self.modified {
            s.append("[+]");
        }
        assert(s@ =~= self@.status_text());
        s
    }
}

/// The answer that `key` gives to the question whether to save before closing: `y` is
/// yes, `n` is no, and any other key leaves the question open.
pub fn save_answer(key: Key) -> (r: Option<bool>)
    ensures
        r == (match key {
            Key::Char('y') => Some(true),
            Key::Char('n') => Some(false),
            _ => None::<bool>,
        }),
{
    match key {
        Key::Char('y') => Some(true),
        Key::Char('n') => Some(false),
        _ => None,
    }
}

/// The digits of `n`.
pub fn decimal_string(n: usize) -> (r: String)
    ensures
        r@ == decimal(n as nat),
    decreases n,
{
    if n < 10 {
        let mut r = String::new();
        push_char(&mut r, digit_char(n as u8));
        r
    } else {
        let mut r = decimal_string(n / 10);
        push_char(&mut r, digit_char((n % 10) as u8));
        r
    }
}

fn digit_char(d: u8) -> (c: char)
    requires
        d < 10,
    ensures
        c == digit(d as int),
{
    match d {
        0 => '0',
        1 => '1',
        2 => '2',
        3 => '3',
        4 => '4',
        5 => '5',
        6 => '6',
        7 => '7',
        8 => '8',
        _ => '9',
    }
}

fn push_spaces(s: &mut String, n: usize)
    ensures
        final(s)@ == old(s)@ + spaces(n as int),
{
    let mut i: usize = 0;
    while i < n
        invariant
            i <= n,
            s@ == old(s)@ + spaces(i as int),
        decreases n - i,
    {
        push_char(s, ' ');
        i += 1;
        assert(s@ =~= old(s)@ + spaces(i as int));
    }
}

/// Ten to the power `k`.
pub open spec fn pow10(k: nat) -> nat
    decreases k,
{
    if k == 0 {
        1
    } else {
        10 * pow10((k - 1) as nat)
    }
}

/// A number below ten to the power `k` has at most `k` digits.
pub proof fn lemma_decimal_len(n: nat, k: nat)
    requires
        n < pow10(k),
        k >= 1,
    ensures
        1 <= decimal(n).len() <= k,
    decreases k,
{
    if n >= 10 {
        assert(k >= 2) by {
            if k == 1 {
                assert(pow10(1) == 10 * pow10(0));
            }
        }
        let p = pow10((k - 1) as nat);
        assert(n / 10 < p) by (nonlinear_arith)
            requires
                n < 10 * p,
        ;
        lemma_decimal_len(n / 10, (k - 1) as nat);
    }
}

/// A `usize` has at most twenty digits.
pub proof fn lemma_decimal_usize(n: usize)
    ensures
        1 <= decimal(n as nat).len() <= 20,
{
    assert(pow10(20) == 100_000_000_000_000_000_000) by {
        reveal_with_fuel(pow10, 21);
    }
    lemma_decimal_len(n as nat, 20);
}

} // verus!
