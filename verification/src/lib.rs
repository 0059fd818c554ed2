//! A character-cell sprite renderer built around a deduplicating tile atlas.
//!
//! Raster images (rows of glyph bytes) are decomposed into fixed-size square
//! tiles; identical tile contents are stored once in a shared atlas and
//! referenced by id. Each frame, a compositor culls the active actors,
//! orders them by z priority and blits their tiles into a glyph/color buffer.

pub mod actor;
pub mod ascii_bros;
pub mod game;
pub mod window;

pub use crate::ascii_bros::Color;
pub use crate::ascii_bros::EntityType;
pub use crate::ascii_bros::Ident;
pub use crate::ascii_bros::TARGET_FPS;
