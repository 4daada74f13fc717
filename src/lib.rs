//! Turns a personal archive of org notes into syndication feeds.
//!
//! Notes are parsed (`org`, `pile`), classified as bookmarks, selected and shuffled into the
//! items of a feed (`feed`), merged where two items are one (`news`), and written out as Atom
//! documents (`xml`). Papers from a weekly listing (`hf`) convert to the same items.

pub mod text;
pub mod time;
pub mod org;
pub mod pile;
pub mod utils;
pub mod news;
pub mod hf;
pub mod xml;
pub mod feed;
