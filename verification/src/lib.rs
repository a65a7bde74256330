//! Extended Hamming-code block encoding.
//!
//! A raw bit stream is split into blocks of `width * width` positions.
//! Position 0 and every power-of-two position are reserved for parity bits;
//! the remaining positions carry the input bits in index order. Each
//! power-of-two position receives the XOR-parity of the One bits whose index
//! has that bit set, and position 0 receives the overall parity bit, so that
//! the total number of One bits in a block is always even.

pub mod bit;
pub mod block;
pub mod encode;
pub mod laws;
pub mod lemmas;
pub mod model;
pub mod render;

pub use bit::Bit;
pub use block::Block;
pub use encode::encode_bits;
pub use encode::EncodeError;
