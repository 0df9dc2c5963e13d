//! A small terminal text editor: the buffer model, cursor movement, selections,
//! editing commands and the key-handling state machine, with their contracts.

pub mod buffer;
pub mod command;
pub mod editor;
pub mod guards;
pub mod laws;
pub mod render;
pub mod selection;
pub mod text;
