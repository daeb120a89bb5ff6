//! Lecture notes in, a paginated summary out.
//!
//! The text of the notes is analysed into keywords and summary sentences
//! (`analyze`), each keyword gets a search link (`util`), and the result is
//! laid out on pages of fixed size (`export`).  The layout engine wraps
//! text to the usable width (`wrap`, `content`) and places the lines page
//! after page (`document`, `pagination`) on a page geometry (`geometry`).

pub mod analyze;
pub mod content;
pub mod document;
pub mod export;
pub mod geometry;
pub mod pagination;
pub mod text;
pub mod util;
pub mod wrap;
