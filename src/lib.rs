//! Editing core of a terminal text editor: the document, its soft-wrapped
//! layout, coordinate mapping, the viewport and an undo/redo timeline.

pub mod text;
pub mod rope;
pub mod layout;
pub mod history;
pub mod buffer;
pub mod command;
