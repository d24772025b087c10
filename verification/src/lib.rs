//! Turns a prompt, optionally backed by the main text of a web page, into a
//! markdown note.

pub mod content;
pub mod dom;
pub mod note;
pub mod prompt;
pub mod structs;
pub mod text;
