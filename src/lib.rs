//! Packing and unpacking of small unsigned bit fields into one fixed-width
//! unsigned integer, most significant field first.
//!
//! A [`Writer`] shifts each new field in at the bottom of its word, so the
//! first field written ends up highest; a [`Reader`] takes fields off the top
//! of a word in the same order.
mod bits;
pub mod fields;
pub mod reader;
pub mod uint;
pub mod writer;

pub use reader::Reader;
pub use uint::{bit_size, n_bit_mask, Uint};
pub use writer::Writer;
