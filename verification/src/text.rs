//! Text utilities: terminal styling and styled-string rendering.

pub mod chars;
pub mod style;
pub mod styled;

pub use style::Color;
pub use style::Style;
pub use styled::Format;
pub use styled::StyledString;
