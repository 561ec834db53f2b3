//! LSB steganography core: hides a byte payload inside the pixel bytes of a
//! raster image by nudging carrier bytes by one, and recovers it later by
//! diffing the encoded image against the untouched original.
//!
//! The crate covers the bit-stream primitives, the container framing format
//! (length + extension + payload), the capacity arithmetic, the
//! alpha-skipping placement policy, and the embedding/extraction engines.
//! Image file decoding and encoding are the caller's concern: the engines
//! work on a flat pixel byte buffer plus format metadata.

pub mod bits;
pub mod capacity;
pub mod container;
pub mod engine;
pub mod errors;
pub mod image;
pub mod ops;

pub use bits::BitGetter;
pub use bits::BitSetter;
pub use errors::StegError;
