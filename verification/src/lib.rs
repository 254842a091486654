//! Sticky notes kept as lines of one text file: the record format of a
//! note, and the rewrites of the file's content that editing and tossing
//! notes ask for. Every function works on the content as a value; reading
//! and writing the file is left to the caller.

pub mod text;
pub mod number;
pub mod note;
pub mod lines;
pub mod util;
pub mod actions;
pub mod arguments;
pub mod layout;
pub mod style;
pub mod listing;
