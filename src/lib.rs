//! Loader for the plain-text `.sfl` bitmap-font descriptor format.
pub mod text;
pub mod font;
pub mod laws;

pub use font::{BMCharacter, BMFont, Field, ParseError};
