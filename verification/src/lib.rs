//! A directory listing engine: collecting the entries of a directory,
//! filtering hidden ones, ordering them by a chosen key and rendering them
//! as short columns, as a long table, as structured records or as a tree.
//!
//! The engine never touches the filesystem itself. A caller reads a
//! directory, hands its children over as plain values and prints the text
//! that comes back.

pub mod text;
pub mod size;
pub mod entry;
pub mod scan;
pub mod sort;
pub mod calendar;
pub mod format;
pub mod listing;
pub mod walk;
