//! The document core of a text editor: UTF-8 text buffers addressed by
//! byte offsets, character-granular cursor coordinates, search and
//! strict-match replace, scroll bookkeeping, and the registry of open
//! documents. Every operation keeps the content valid UTF-8 and every
//! exposed offset on a character boundary.
pub mod buffer;
pub mod collection;
pub mod cursor;
pub mod document;
pub mod errors;
pub mod recent;
pub mod search;
pub mod syntax;
pub mod text;
pub mod ui;
pub mod viewport;
