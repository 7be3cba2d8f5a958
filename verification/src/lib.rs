//! Sticky notes for Linux: the note model and file format, the note store's
//! layout and order, the command line's and the terminal manager's
//! decisions, and the text handling of the note editor.

pub mod cli;
pub mod editor;
pub mod frontmatter;
pub mod markup;
pub mod model;
pub mod number;
pub mod repository;
pub mod text;
pub mod tui;
