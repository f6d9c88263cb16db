//! Re-cases whitespace-delimited words of a text into a requested case
//! style (PascalCase, camelCase, snake_case, SCREAMING_SNAKE_CASE,
//! kebab-case), preserving every whitespace character verbatim.

pub mod chars;
pub mod convert;
pub mod laws;
pub mod segment;
pub mod style;
pub mod styled;
pub mod transform;

pub use style::CaseType;
pub use transform::transform_line;
