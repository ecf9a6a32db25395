//! Splitting text into row-numbered chunks and pattern lines.

pub mod line;
pub mod pattern;

pub use line::ChunkedLine;
pub use line::ChunkedLines;
pub use pattern::PatternLine;
pub use pattern::PatternLines;
pub use pattern::PatternRegex;
