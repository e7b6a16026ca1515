//! Everything the library believes of other crates.
pub mod aligned_vec;
pub mod byte_buffers;
pub mod errors;
pub mod unsigned_varint_crate;
