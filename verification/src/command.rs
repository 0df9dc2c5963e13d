//! The edits that the editor records for undoing.

use vstd::prelude::*;

verus! {

/// One recorded edit, with the position where it happened.
pub enum Command {
    InsertChar { x: usize, y: usize, c: char },
    SplitLine { x: usize, y: usize },
    DeleteChar { x: usize, y: usize, c: char },
    MergeLine { y: usize, prev_line_len: usize },
    InsertStr { x: usize, y: usize, text: String },
    DeleteSelection { start_x: usize, start_y: usize, text: String },
}

/// A recorded edit with its text taken as a sequence of characters.
pub enum CommandView {
    InsertChar { x: usize, y: usize, c: char },
    SplitLine { x: usize, y: usize },
    DeleteChar { x: usize, y: usize, c: char },
    MergeLine { y: usize, prev_line_len: usize },
    InsertStr { x: usize, y: usize, text: Seq<char> },
    DeleteSelection { start_x: usize, start_y: usize, text: Seq<char> },
}

impl View for Command {
    type V = CommandView;

    open spec fn view(&self) -> CommandView {
        match self {
            Command::InsertChar { x, y, c } => CommandView::InsertChar { x: *x, y: *y, c: *c },
            Command::SplitLine { x, y } => CommandView::SplitLine { x: *x, y: *y },
            Command::DeleteChar { x, y, c } => CommandView::DeleteChar { x: *x, y: *y, c: *c },
            Command::MergeLine { y, prev_line_len } => CommandView::MergeLine {
                y: *y,
                prev_line_len: *prev_line_len,
            },
            Command::InsertStr { x, y, text } => CommandView::InsertStr {
                x: *x,
                y: *y,
                text: text@,
            },
            Command::DeleteSelection { start_x, start_y, text } => CommandView::DeleteSelection {
                start_x: *start_x,
                start_y: *start_y,
                text: text@,
            },
        }
    }
}

} // verus!
