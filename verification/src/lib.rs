//! The prompt of a chat command line: what it completes, hints, validates and highlights,
//! and how its line editor is set up.

pub mod commands;
pub mod completion;
pub mod editor;
pub mod helper;
pub mod highlight;
pub mod hint;
pub mod history;
pub mod settings;
pub mod text;
pub mod validate;
pub mod words;
