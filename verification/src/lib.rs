//! Verified building blocks of a small family of text tools (`cat`, `head`,
//! `wc`, `uniq` and `tail` workalikes): the parsing of their arguments, the
//! counting, splitting and selection of text, and the rendering of their
//! output lines. Reading files and printing stay with the caller.

pub mod text;
pub mod numparse;
pub mod lines;
pub mod pattern;
pub mod tailr;
pub mod headr;
pub mod wcr;
pub mod catr;
pub mod uniqr;
pub mod laws;
