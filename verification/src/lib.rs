//! Wrapping of one over-long source line that holds a quoted string literal.
//!
//! The literal is put in parentheses, on continuation lines of its own that
//! are indented four spaces deeper than the line, and cut between words
//! wherever a line reaches the wrap width. [`wrap_line`] does this to a line
//! of text, [`filter`] to the bytes of one. [`scan`] holds the mathematical
//! model that their contracts speak of, and [`laws`] what is proved of it.

pub mod input;
pub mod laws;
pub mod layout;
pub mod occurrence;
pub mod options;
pub mod scan;
pub mod text;
pub mod wrap;

pub use input::{filter, trim_end, InputError};
pub use options::quote_from;
pub use text::count_leading_spaces;
pub use wrap::{wrap_line, wrap_long_line, Scanner};
