//! A terminal text editor's core: a gap buffer of characters, an undo/redo
//! history, and the key-by-key behaviour of an editing session, each with its
//! contract and the laws that hold of it.

pub mod buffer;
pub mod engine;
pub mod history;
pub mod model;
pub mod strings;
pub mod text;
pub mod viewer;
