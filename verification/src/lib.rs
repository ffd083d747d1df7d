//! A verified counting library in the manner of the Unix `wc` tool: it
//! measures lines, words, characters and bytes of a text, collects one
//! outcome per named source, sums them into a total row, and renders the
//! aligned report.  Reading files and printing stay outside; the library
//! works on strings and hands back strings.

pub mod count;
pub mod digits;
pub mod error;
pub mod report;
pub mod reports;
pub mod text;
pub mod wc;
