//! Fields of voice frames, read from bits that the receiver has already recovered.

pub mod header;
