//! CompactSize: the variable-length unsigned integer encoding of a
//! consensus-critical wire format, with a verified encoder, decoder and
//! length function.

pub mod class;
pub mod laws;
pub mod le;
pub mod varint;

pub use class::SizeClass;
pub use varint::{Decoded, VarInt, VarIntError};
