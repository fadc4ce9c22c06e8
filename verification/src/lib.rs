//! Word boxes: a sentence laid out as a rectangular grid of characters,
//! filled row by row in alternating directions.
//!
//! [`word_box::pack_box`] is the way in. It refuses a sentence with a prime
//! number of characters ([`primality`]), picks the shape of the grid
//! ([`dimensions`], on the square roots of [`square`]) and fills the grid
//! ([`packer`]). [`render`] writes a box as text.

pub mod dimensions;
pub mod packer;
pub mod primality;
pub mod render;
pub mod square;
pub mod word_box;
