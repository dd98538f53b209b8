//! Bit-level I/O: 64-bit words written and read least-significant bit first.

pub mod stream_core;
pub mod ops;
pub mod owned;

pub use ops::{ZfpBitStreamMutOps, ZfpBitStreamOps};
pub use owned::ZfpBitStream;
pub mod borrowed;

pub use borrowed::{ZfpBitStreamRef, ZfpBitStreamRefMut};
