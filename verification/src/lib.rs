//! Line-oriented text input: a reader that yields the data lines of a text,
//! skipping comment lines and blank lines, and helpers that decode the
//! whitespace-separated tokens of a line as integers.

pub mod decode;
pub mod lines;
pub mod reader;
pub mod text;
pub mod tokens;

pub use decode::ParseError;
pub use reader::{EndOfInput, LineIO};
