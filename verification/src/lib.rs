//! A literature clock: maps a wall-clock time to a literary quotation whose
//! text contains a phrase describing that time, and computes which characters
//! of a rendered quotation belong to that phrase so they can be highlighted.

pub mod align;
pub mod clock;
pub mod index;
pub mod record;
pub mod render;
pub mod text;
pub mod validate;

pub use clock::Direction;
