//! Fixed-width bit sets backed by the unsigned integer types `u8`, `u16`,
//! `u32`, `u64` and `u128`.
//!
//! Each type is a set of bit positions `0..W` with the usual set algebra
//! (union, intersection, difference, complement), indexed bit access, and
//! little-endian binary plus decimal text encodings.

pub mod arith;
pub mod codec;
pub mod flags_8;
pub mod flags_16;
pub mod flags_32;
pub mod flags_64;
pub mod flags_128;

pub use flags_8::BitFlags8;
pub use flags_8::BitFlagsIter8;
pub use flags_16::BitFlags16;
pub use flags_16::BitFlagsIter16;
pub use flags_32::BitFlags32;
pub use flags_32::BitFlagsIter32;
pub use flags_64::BitFlags64;
pub use flags_64::BitFlagsIter64;
pub use flags_128::BitFlags128;
pub use flags_128::BitFlagsIter128;
pub use codec::DecodeError;
pub use codec::ParseError;
