//! A selection between two positions of the buffer.

use vstd::prelude::*;
use crate::text::{
    before_byte, bytes_between, from_byte, line_part, line_views, lines_between, on_boundary,
    push_newline, split_line,
};

verus! {

/// Two positions of the buffer: where the selection was started and where it ends now.
/// Columns count bytes of a line's UTF-8 text; rows are indices into the buffer.
#[derive(Clone, Copy, Debug)]
pub struct Selection {
    pub start_x: u16,
    pub start_y: usize,
    pub end_x: u16,
    pub end_y: usize,
}

/// Whether position (x1, y1) comes no later than (x2, y2) in reading order.
pub open spec fn at_or_before(x1: int, y1: int, x2: int, y2: int) -> bool {
    y1 < y2 || (y1 == y2 && x1 <= x2)
}

/// The text of `lines` from position (sx, sy) up to (ex, ey) (columns in bytes), with a
/// newline between
/// consecutive lines.
pub open spec fn text_between(lines: Seq<Seq<char>>, sx: int, sy: int, ex: int, ey: int) -> Seq<
    char,
> {
    if sy == ey {
        bytes_between(lines[sy], sx, ex)
    } else {
        from_byte(lines[sy], sx) + seq!['\n'] + lines_between(lines, sy + 1, ey) + before_byte(
            lines[ey],
            ex,
        )
    }
}

impl Selection {
    /// The two positions in reading order, as (first x, first y, second x, second y).
    pub open spec fn spec_normalize(&self) -> (u16, usize, u16, usize) {
        if at_or_before(self.start_x as int, self.start_y as int, self.end_x as int, self.end_y as int) {
            (self.start_x, self.start_y, self.end_x, self.end_y)
        } else {
            (self.end_x, self.end_y, self.start_x, self.start_y)
        }
    }

    /// Whether both ends of the selection lie on lines of `lines`, each where a character
    /// begins or at the line's end.
    pub open spec fn fits(&self, lines: Seq<Seq<char>>) -> bool {
        &&& self.start_y < lines.len()
        &&& self.end_y < lines.len()
        &&& on_boundary(lines[self.start_y as int], self.start_x as int)
        &&& on_boundary(lines[self.end_y as int], self.end_x as int)
    }

    /// The selected text of `lines`: from the first position up to the second, with a
    /// newline between consecutive lines.
    pub open spec fn spec_sel_string(&self, lines: Seq<Seq<char>>) -> Seq<char> {
        let (sx, sy, ex, ey) = self.spec_normalize();
        text_between(lines, sx as int, sy as int, ex as int, ey as int)
    }

    /// Returns the two ends of the selection in reading order.
    pub fn normalize(&self) -> (r: (u16, usize, u16, usize))
        ensures
            r == self.spec_normalize(),
            at_or_before(r.0 as int, r.1 as int, r.2 as int, r.3 as int),
    {
        if self.start_y < self.end_y {
            (self.start_x, self.start_y, self.end_x, self.end_y)
        } else if self.end_y < self.start_y {
            (self.end_x, self.end_y, self.start_x, self.start_y)
        } else {
            if self.start_x <= self.end_x {
                (self.start_x, self.start_y, self.end_x, self.end_y)
            } else {
                (self.end_x, self.start_y, self.start_x, self.end_y)
            }
        }
    }

    /// Returns the selected text of `text`.
    pub fn sel_string(&self, text: &Vec<String>) -> (r: String)
        requires
            self.fits(line_views(text@)),
        ensures
            r@ == self.spec_sel_string(line_views(text@)),
    {
        let ghost lines = line_views(text@);
        let (start_x, start_y, end_x, end_y) = self.normalize();
        if start_y == end_y {
            line_part(&text[start_y], start_x as usize, end_x as usize)
        } else {
            let (_, mut result) = split_line(&text[start_y], start_x as usize);
            push_newline(&mut result);
            let mut y = start_y + 1;
            while y < end_y
                invariant
                    lines == line_views(text@),
                    start_y < y <= end_y < text@.len(),
                    result@ == from_byte(lines[start_y as int], start_x as int) + seq!['\n']
                        + lines_between(lines, start_y + 1, y as int),
                decreases end_y - y,
            {
                let ghost before = result@;
                result.append(text[y].as_str());
                push_newline(&mut result);
                assert(lines_between(lines, start_y + 1, y + 1) == lines_between(
                    lines,
                    start_y + 1,
                    y as int,
                ) + lines[y as int] + seq!['\n']);
                assert(result@ =~= before + lines[y as int] + seq!['\n']);
                y = y + 1;
            }
            let (last, _) = split_line(&text[end_y], end_x as usize);
            result.append(last.as_str());
            result
        }
    }
}

} // verus!
